//! The Sv39 three-level page table.
//!
//! A page table is a root page of 512 PTEs, plus the level-1 and level-0
//! table pages it owns. A directory PTE holds the frame number of the next
//! level's table page in its physical-page-number field; a level-0 PTE maps
//! one 4096-byte page of virtual memory to a physical page, with flags.
use vstd::prelude::*;
use core::ops::Range;
use crate::memlayout::{TRAMPOLINE, TRAPFRAME};
use crate::riscv::{
    PGSIZE, MAXVA, px, px_spec, pa2pte, pte2pa, pte2pa_spec, lemma_px_injective,
};

verus! {

/// Number of PTEs in one page-table page.
pub const NPTE: usize = 512;

/// The most table pages one level can hold: a table's frame number must fit
/// the 44-bit physical-page-number field of a PTE.
pub const MAX_TABLE_PAGES: u64 = 0x1000_0000_0000;

/// valid
pub const PTE_V: u64 = 1;

pub const PTE_R: u64 = 2;

pub const PTE_W: u64 = 4;

pub const PTE_X: u64 = 8;

/// user can access
pub const PTE_U: u64 = 16;

/// Flags of a page-table entry.
#[derive(Clone, Copy, Debug)]
pub struct PteFlags(pub u64);

impl PteFlags {
    /// No flag set.
    pub fn empty() -> (r: PteFlags)
        ensures
            r.0 == 0,
    {
        PteFlags(0)
    }

    /// All the bits of `bits`, whether or not they name a flag.
    pub fn from_bits_retain(bits: u64) -> (r: PteFlags)
        ensures
            r.0 == bits,
    {
        PteFlags(bits)
    }

    /// The raw bits.
    pub fn bits(&self) -> (r: u64)
        ensures
            r == self.0,
    {
        self.0
    }

    /// The flags set in either.
    pub fn union(self, other: PteFlags) -> (r: PteFlags)
        ensures
            r.0 == self.0 | other.0,
    {
        PteFlags(self.0 | other.0)
    }

    /// Whether any flag of `other` is set in `self`.
    pub fn intersects(&self, other: PteFlags) -> (r: bool)
        ensures
            r == (self.0 & other.0 != 0),
    {
        self.0 & other.0 != 0
    }

    /// Whether every flag of `other` is set in `self`.
    pub fn contains(&self, other: PteFlags) -> (r: bool)
        ensures
            r == (self.0 & other.0 == other.0),
    {
        self.0 & other.0 == other.0
    }
}

/// A page-table entry.
#[derive(Clone, Copy, Debug)]
pub struct Pte(pub u64);

/// The bits of a valid PTE mapping physical address `pa` with `flags`.
pub open spec fn pte_bits(pa: u64, flags: u64) -> u64 {
    ((pa >> 12u64) << 10u64) | (flags | 1u64)
}

/// The V bit is set.
pub open spec fn valid_bits(bits: u64) -> bool {
    bits % 2 == 1
}

/// The frame number held in a PTE's physical-page-number field.
pub open spec fn frame_of(bits: u64) -> int {
    (bits as int / 1024) % 0x10_0000_0000_0000
}

/// A PTE made by `Pte::new(pa, flags)` is valid, and when `pa` is page
/// aligned and the flags stay in the low ten bits, it gives `pa` back.
pub proof fn lemma_pte_bits(pa: u64, flags: u64)
    ensures
        valid_bits(pte_bits(pa, flags)),
        pa % PGSIZE == 0 && flags < 1024 ==> pte2pa_spec(pte_bits(pa, flags)) == pa,
        pa % PGSIZE == 0 && flags < 1024 ==> frame_of(pte_bits(pa, flags)) == pa / PGSIZE,
        dir_entry(Pte(pte_bits(pa, 0))),
{
    assert((((pa >> 12u64) << 10u64) | (0u64 | 1u64)) % 1024 == 1) by (bit_vector);
    assert(((((pa >> 12u64) << 10u64) | (flags | 1u64)) % 2) == 1) by (bit_vector);
    assert(pa % 4096 == 0 && flags < 1024 ==> ((((((pa >> 12u64) << 10u64) | (flags | 1u64))
        / 1024) % 0x10_0000_0000_0000) * 4096) == pa) by (bit_vector);
    assert(pa % 4096 == 0 && flags < 1024 ==> (((((pa >> 12u64) << 10u64) | (flags | 1u64))
        / 1024) % 0x10_0000_0000_0000) == pa / 4096) by (bit_vector);
}

impl Pte {
    /// A valid entry for physical address `pa` with `flags`.
    pub fn new(pa: u64, flags: PteFlags) -> (r: Self)
        ensures
            r.0 == pte_bits(pa, flags.0),
            valid_bits(r.0),
    {
        proof {
            lemma_pte_bits(pa, flags.0);
        }
        assert(((pa >> 12u64) << 10u64) == (pa / 4096) * 1024) by (bit_vector);
        let f = flags.union(PteFlags(PTE_V)).bits();
        Pte(pa2pte(pa) | f)
    }

    /// All the bits of the entry, seen as flags.
    pub fn flags(&self) -> (r: PteFlags)
        ensures
            r.0 == self.0,
    {
        PteFlags::from_bits_retain(self.0)
    }

    /// Whether the V bit is set.
    pub fn valid(&self) -> (r: bool)
        ensures
            r == valid_bits(self.0),
    {
        let b = self.0;
        assert((b & 1u64 != 0) == (b % 2 == 1)) by (bit_vector);
        self.flags().intersects(PteFlags(PTE_V))
    }

    /// The physical address in the entry.
    pub fn pa(&self) -> (r: u64)
        ensures
            r == pte2pa_spec(self.0),
            r % PGSIZE == 0,
    {
        pte2pa(self.0)
    }
}

/// A page-aligned user or kernel virtual address below MAXVA.
pub open spec fn page_va(va: u64) -> bool {
    va < MAXVA && va % PGSIZE == 0
}

/// The PTEs that mapping `[start, end)` page by page to the physical
/// pages from `pa` on with `perm` adds.
pub open spec fn span(start: u64, end: u64, pa: u64, perm: PteFlags) -> Map<u64, Pte> {
    Map::new(
        |a: u64| start <= a < end && a % PGSIZE == 0,
        |a: u64| Pte(pte_bits((pa + (a - start)) as u64, perm.0)),
    )
}

/// The pages of `[start, end)` when stepping from `start` by whole pages.
pub open spec fn pages(start: u64, end: u64) -> Set<u64> {
    Set::new(|a: u64| start <= a < end && a % PGSIZE == 0)
}

/// A directory entry, pointing at a next-level table page: its flag bits
/// are the V bit alone (an entry with R, W or X set would be a leaf).
pub open spec fn dir_entry(p: Pte) -> bool {
    p.0 % 1024 == PTE_V
}

/// A leaf entry as `remove` accepts it: its flags are not the V bit alone.
pub open spec fn is_leaf(p: Pte) -> bool {
    p.0 != PTE_V
}

/// The number of pages met stepping from `start` by whole pages below `end`.
pub open spec fn page_count(start: u64, end: u64) -> nat {
    if start < end {
        ((end - start + PGSIZE - 1) / PGSIZE as int) as nat
    } else {
        0
    }
}

/// The physical pages that the mappings of the pages from `start` up to
/// `end` in `m` point at, in order.
pub open spec fn freed_pages(m: Map<u64, Pte>, start: u64, end: u64) -> Seq<u64> {
    Seq::new(
        page_count(start, end),
        |k: int| pte2pa_spec(m[(start + k * PGSIZE) as u64].0) as u64,
    )
}

/// Mapping one more page extends the span by that page.
proof fn lemma_span_step(m: Map<u64, Pte>, start: u64, a: u64, pa: u64, perm: PteFlags)
    requires
        start <= a,
        a % PGSIZE == 0,
        a + PGSIZE <= u64::MAX,
    ensures
        m.union_prefer_right(span(start, a, pa, perm)).insert(
            a,
            Pte(pte_bits((pa + (a - start)) as u64, perm.0)),
        ) == m.union_prefer_right(span(start, (a + PGSIZE) as u64, pa, perm)),
{
    assert(m.union_prefer_right(span(start, a, pa, perm)).insert(
        a,
        Pte(pte_bits((pa + (a - start)) as u64, perm.0)),
    ) =~= m.union_prefer_right(span(start, (a + PGSIZE) as u64, pa, perm)));
}

/// One more page on the range of pages.
proof fn lemma_pages_step(start: u64, a: u64)
    requires
        start <= a,
        a % PGSIZE == 0,
        a + PGSIZE <= u64::MAX,
    ensures
        pages(start, (a + PGSIZE) as u64) == pages(start, a).insert(a),
{
    assert(pages(start, (a + PGSIZE) as u64) =~= pages(start, a).insert(a));
}

/// The walk from page-aligned `start` ends at the first page-aligned `a`
/// at or beyond `end`, and has met the same pages and as many as the range.
proof fn lemma_pages_end(start: u64, a: u64, end: u64)
    requires
        start <= a,
        start % PGSIZE == 0,
        a % PGSIZE == 0,
        (end <= a < end + PGSIZE) || (a == start && end <= start),
    ensures
        pages(start, a) == pages(start, end),
        page_count(start, a) == page_count(start, end),
{
    assert(pages(start, a) =~= pages(start, end));
    if start < end {
        assert((end - start + PGSIZE - 1) / PGSIZE as int == (a - start) / PGSIZE as int)
            by (nonlinear_arith)
            requires
                start <= end <= a < end + 4096,
                start % 4096 == 0,
                a % 4096 == 0,
        {
            let k = (a - start) / 4096;
            assert(a - start == k * 4096);
        }
        assert((a - start + PGSIZE - 1) / PGSIZE as int == (a - start) / PGSIZE as int)
            by (nonlinear_arith)
            requires
                start <= a,
                start % 4096 == 0,
                a % 4096 == 0,
        {
            let k = (a - start) / 4096;
            assert(a - start == k * 4096);
        }
    } else {
        assert(a == start);
    }
}

/// Freeing one more page appends its physical address.
proof fn lemma_freed_pages_step(m: Map<u64, Pte>, start: u64, a: u64)
    requires
        start <= a,
        start % PGSIZE == 0,
        a % PGSIZE == 0,
        a + PGSIZE <= u64::MAX,
    ensures
        freed_pages(m, start, (a + PGSIZE) as u64) == freed_pages(m, start, a).push(
            pte2pa_spec(m[a].0) as u64,
        ),
{
    let k = (a - start) / 4096;
    assert(a - start == k * 4096) by (nonlinear_arith)
        requires
            start <= a,
            start % 4096 == 0,
            a % 4096 == 0,
            k == (a - start) / 4096,
    ;
    assert(page_count(start, a) == k) by (nonlinear_arith)
        requires
            a - start == k * 4096,
            k >= 0,
            page_count(start, a) == (if start < a {
                ((a - start + 4096 - 1) / 4096) as nat
            } else {
                0
            }),
    ;
    assert(page_count(start, (a + PGSIZE) as u64) == k + 1) by (nonlinear_arith)
        requires
            a - start == k * 4096,
            k >= 0,
            page_count(start, (a + 4096) as u64) == ((a + 4096 - start + 4096 - 1) / 4096) as nat,
    ;
    assert((start + k * PGSIZE) as u64 == a);
    assert(freed_pages(m, start, (a + PGSIZE) as u64) =~= freed_pages(m, start, a).push(
        pte2pa_spec(m[a].0) as u64,
    ));
}

/// A process's page table.
pub struct PageTable {
    /// the root (level-2) table page
    root: Vec<Pte>,
    /// the level-1 table pages, NPTE entries each, indexed by frame number
    mid: Vec<Pte>,
    /// the level-0 table pages, NPTE entries each, indexed by frame number
    leaf: Vec<Pte>,
}

impl PageTable {
    spec fn mid_slot(&self, va: u64) -> int {
        frame_of(self.root@[px_spec(2, va) as int].0) * 512 + px_spec(1, va)
    }

    spec fn leaf_slot(&self, va: u64) -> int {
        frame_of(self.mid@[self.mid_slot(va)].0) * 512 + px_spec(0, va)
    }

    /// Both directory entries on the walk to `va` are valid.
    spec fn dirs_valid(&self, va: u64) -> bool {
        &&& valid_bits(self.root@[px_spec(2, va) as int].0)
        &&& valid_bits(self.mid@[self.mid_slot(va)].0)
    }

    /// The directory entries on the walk to `va` exist: mapping `va` needs
    /// no new table page.
    pub closed spec fn has_walk(&self, va: u64) -> bool {
        self.dirs_valid(va)
    }

    /// The level-0 entry that the walk to `va` reaches, valid or not; None
    /// when the walk has no level-0 table page.
    pub closed spec fn leaf_entry(&self, va: u64) -> Option<Pte> {
        if self.dirs_valid(va) {
            Some(self.leaf@[self.leaf_slot(va)])
        } else {
            None
        }
    }

    spec fn mapped(&self, va: u64) -> bool {
        &&& page_va(va)
        &&& self.dirs_valid(va)
        &&& valid_bits(self.leaf@[self.leaf_slot(va)].0)
    }

    /// The mappings: each mapped page-aligned virtual address and its
    /// level-0 PTE.
    pub closed spec fn view(&self) -> Map<u64, Pte> {
        Map::new(|va: u64| self.mapped(va), |va: u64| self.leaf@[self.leaf_slot(va)])
    }

    /// The table is well formed: each directory entry points at a table
    /// page of the next level that no other entry points at.
    pub closed spec fn wf(&self) -> bool {
        &&& self.root@.len() == NPTE
        &&& self.mid@.len() % 512 == 0
        &&& self.leaf@.len() % 512 == 0
        &&& self.mid@.len() / 512 <= MAX_TABLE_PAGES
        &&& self.leaf@.len() / 512 <= MAX_TABLE_PAGES
        &&& forall|i: int|
            0 <= i < 512 && #[trigger] valid_bits(self.root@[i].0) ==> frame_of(self.root@[i].0)
                < self.mid@.len() / 512
        &&& forall|j: int|
            0 <= j < self.mid@.len() && #[trigger] valid_bits(self.mid@[j].0) ==> frame_of(
                self.mid@[j].0,
            ) < self.leaf@.len() / 512
        &&& forall|i: int|
            0 <= i < 512 && #[trigger] valid_bits(self.root@[i].0) ==> dir_entry(self.root@[i])
        &&& forall|j: int|
            0 <= j < self.mid@.len() && #[trigger] valid_bits(self.mid@[j].0) ==> dir_entry(
                self.mid@[j],
            )
        &&& forall|i1: int, i2: int|
            0 <= i1 < 512 && 0 <= i2 < 512 && i1 != i2 && #[trigger] valid_bits(self.root@[i1].0)
                && #[trigger] valid_bits(self.root@[i2].0) ==> frame_of(self.root@[i1].0)
                != frame_of(self.root@[i2].0)
        &&& forall|j1: int, j2: int|
            0 <= j1 < self.mid@.len() && 0 <= j2 < self.mid@.len() && j1 != j2
                && #[trigger] valid_bits(self.mid@[j1].0) && #[trigger] valid_bits(self.mid@[j2].0)
                ==> frame_of(self.mid@[j1].0) != frame_of(self.mid@[j2].0)
    }
}


/// A freshly allocated, zeroed table page.
pub open spec fn zero_table() -> Seq<Pte> {
    Seq::new(512, |k: int| Pte(0))
}

/// Append a zeroed table page to `table`, if memory can be had for it,
/// and return its frame number. A level whose frame numbers are all taken
/// gets no more pages; otherwise the allocator decides (see
/// `append_table`).
fn alloc_table(table: &mut Vec<Pte>) -> (r: Option<usize>)
    requires
        old(table)@.len() % 512 == 0,
        old(table)@.len() / 512 <= MAX_TABLE_PAGES,
    ensures
        match r {
            Some(n) => {
                &&& n == old(table)@.len() / 512
                &&& n < MAX_TABLE_PAGES
                &&& final(table)@ == old(table)@ + zero_table()
            },
            None => final(table)@ == old(table)@,
        },
        old(table)@.len() / 512 == MAX_TABLE_PAGES ==> r is None,
{
    let n = table.len() / NPTE;
    if n as u64 >= MAX_TABLE_PAGES {
        return None;
    }
    let reserved = table.try_reserve(NPTE).is_ok();
    append_table(table, reserved)
}

/// Append a zeroed table page to `table` when room for it was `reserved`,
/// and return its frame number; None, leaving the table as it is, when no
/// room could be had.
fn append_table(table: &mut Vec<Pte>, reserved: bool) -> (r: Option<usize>)
    requires
        old(table)@.len() % 512 == 0,
        old(table)@.len() / 512 < MAX_TABLE_PAGES,
    ensures
        reserved ==> r == Some((old(table)@.len() / 512) as usize) && final(table)@ == old(table)@
            + zero_table(),
        !reserved ==> r is None && final(table)@ == old(table)@,
{
    if !reserved {
        return None;
    }
    let n = table.len() / NPTE;
    let ghost start = table@;
    let mut k: usize = 0;
    while k < NPTE
        invariant
            k <= NPTE,
            table@ == start + Seq::new(k as nat, |i: int| Pte(0)),
        decreases NPTE - k,
    {
        table.push(Pte(0));
        k = k + 1;
        assert(table@ =~= start + Seq::new(k as nat, |i: int| Pte(0)));
    }
    assert(table@ =~= start + zero_table());
    Some(n)
}

impl PageTable {
    /// On a walk whose directory entries are valid, the level-1 and level-0
    /// slots are inside the table pages.
    proof fn lemma_slots_in_bounds(&self, va: u64)
        requires
            self.wf(),
            self.dirs_valid(va),
        ensures
            0 <= self.mid_slot(va) < self.mid@.len(),
            0 <= self.leaf_slot(va) < self.leaf@.len(),
    {
        let i2 = px_spec(2, va) as int;
        assert(valid_bits(self.root@[i2].0));
        let ms = self.mid_slot(va);
        assert(0 <= ms < self.mid@.len());
        assert(valid_bits(self.mid@[ms].0));
    }

    /// Distinct mapped-or-walkable pages use distinct level-0 slots.
    proof fn lemma_leaf_slot_injective(&self, va1: u64, va2: u64)
        requires
            self.wf(),
            page_va(va1),
            page_va(va2),
            self.dirs_valid(va1),
            self.dirs_valid(va2),
            self.leaf_slot(va1) == self.leaf_slot(va2),
        ensures
            va1 == va2,
    {
        self.lemma_slots_in_bounds(va1);
        self.lemma_slots_in_bounds(va2);
        let ms1 = self.mid_slot(va1);
        let ms2 = self.mid_slot(va2);
        assert(frame_of(self.mid@[ms1].0) == frame_of(self.mid@[ms2].0));
        assert(px_spec(0, va1) == px_spec(0, va2));
        if ms1 != ms2 {
            assert(valid_bits(self.mid@[ms1].0));
            assert(valid_bits(self.mid@[ms2].0));
            assert(false);
        }
        let r1 = px_spec(2, va1) as int;
        let r2 = px_spec(2, va2) as int;
        assert(frame_of(self.root@[r1].0) == frame_of(self.root@[r2].0));
        assert(px_spec(1, va1) == px_spec(1, va2));
        if r1 != r2 {
            assert(valid_bits(self.root@[r1].0));
            assert(valid_bits(self.root@[r2].0));
            assert(false);
        }
        lemma_px_injective(va1, va2);
    }

    /// Pointing an invalid root entry at a freshly appended, zeroed level-1
    /// table page keeps the table well formed and its mappings unchanged.
    proof fn lemma_new_mid(old_pt: &PageTable, new_pt: &PageTable, i2: int, e: Pte)
        requires
            old_pt.wf(),
            0 <= i2 < 512,
            !valid_bits(old_pt.root@[i2].0),
            valid_bits(e.0),
            dir_entry(e),
            frame_of(e.0) == old_pt.mid@.len() / 512,
            old_pt.mid@.len() / 512 < MAX_TABLE_PAGES,
            new_pt.root@ == old_pt.root@.update(i2, e),
            new_pt.mid@ == old_pt.mid@ + zero_table(),
            new_pt.leaf@ == old_pt.leaf@,
        ensures
            new_pt.wf(),
            new_pt@ == old_pt@,
            forall|v: u64| #[trigger] old_pt.dirs_valid(v) ==> new_pt.dirs_valid(v),
            forall|v: u64| #[trigger] old_pt.dirs_valid(v) ==> new_pt.leaf_entry(v) == old_pt.leaf_entry(v),
    {
        let n = old_pt.mid@.len() / 512;
        assert(new_pt.mid@.len() == old_pt.mid@.len() + 512);
        assert(new_pt.mid@.len() / 512 == n + 1);
        assert forall|i: int|
            0 <= i < 512 && #[trigger] valid_bits(new_pt.root@[i].0) implies frame_of(
                new_pt.root@[i].0,
            ) < new_pt.mid@.len() / 512 by {
            if i != i2 {
                assert(valid_bits(old_pt.root@[i].0));
            }
        }
        assert forall|j: int|
            0 <= j < new_pt.mid@.len() && #[trigger] valid_bits(new_pt.mid@[j].0) implies frame_of(
                new_pt.mid@[j].0,
            ) < new_pt.leaf@.len() / 512 by {
            if j < old_pt.mid@.len() {
                assert(new_pt.mid@[j] == old_pt.mid@[j]);
            } else {
                assert(new_pt.mid@[j] == Pte(0));
            }
        }
        assert forall|i1: int, i2b: int|
            0 <= i1 < 512 && 0 <= i2b < 512 && i1 != i2b && #[trigger] valid_bits(
                new_pt.root@[i1].0,
            ) && #[trigger] valid_bits(new_pt.root@[i2b].0) implies frame_of(new_pt.root@[i1].0)
            != frame_of(new_pt.root@[i2b].0) by {
            if i1 != i2 {
                assert(valid_bits(old_pt.root@[i1].0));
            }
            if i2b != i2 {
                assert(valid_bits(old_pt.root@[i2b].0));
            }
        }
        assert forall|j1: int, j2: int|
            0 <= j1 < new_pt.mid@.len() && 0 <= j2 < new_pt.mid@.len() && j1 != j2
                && #[trigger] valid_bits(new_pt.mid@[j1].0) && #[trigger] valid_bits(
                new_pt.mid@[j2].0,
            ) implies frame_of(new_pt.mid@[j1].0) != frame_of(new_pt.mid@[j2].0) by {
            if j1 >= old_pt.mid@.len() {
                assert(new_pt.mid@[j1] == Pte(0));
            }
            if j2 >= old_pt.mid@.len() {
                assert(new_pt.mid@[j2] == Pte(0));
            }
            assert(new_pt.mid@[j1] == old_pt.mid@[j1]);
            assert(new_pt.mid@[j2] == old_pt.mid@[j2]);
        }
        assert forall|va: u64|
            #[trigger] new_pt.mapped(va) == old_pt.mapped(va) && (old_pt.mapped(va)
                ==> new_pt.leaf_slot(va) == old_pt.leaf_slot(va)) by {
            if page_va(va) {
                let r = px_spec(2, va) as int;
                if r == i2 {
                    let ms = new_pt.mid_slot(va);
                    assert(ms >= old_pt.mid@.len());
                    assert(new_pt.mid@[ms] == Pte(0));
                } else {
                    assert(new_pt.root@[r] == old_pt.root@[r]);
                    if valid_bits(old_pt.root@[r].0) {
                        let ms = old_pt.mid_slot(va);
                        assert(ms < old_pt.mid@.len());
                        assert(new_pt.mid@[ms] == old_pt.mid@[ms]);
                    }
                }
            }
        }
        assert(new_pt@ =~= old_pt@);
        assert forall|v: u64| #[trigger] old_pt.dirs_valid(v) implies new_pt.dirs_valid(v) by {
            let r = px_spec(2, v) as int;
            assert(0 <= r < 512);
            assert(r != i2);
            assert(new_pt.root@[r] == old_pt.root@[r]);
            let ms = old_pt.mid_slot(v);
            assert(frame_of(old_pt.root@[r].0) < old_pt.mid@.len() / 512);
            assert(0 <= ms < old_pt.mid@.len()) by (nonlinear_arith)
                requires
                    ms == frame_of(old_pt.root@[r].0) * 512 + px_spec(1, v),
                    0 <= frame_of(old_pt.root@[r].0) < old_pt.mid@.len() / 512,
                    0 <= px_spec(1, v) < 512,
                    old_pt.mid@.len() % 512 == 0,
            {
            }
            assert(new_pt.mid@[ms] == old_pt.mid@[ms]);
            assert(new_pt.mid_slot(v) == ms);
            old_pt.lemma_slots_in_bounds(v);
            assert(new_pt.leaf_slot(v) == old_pt.leaf_slot(v));
        }
    }

    /// Pointing an invalid level-1 entry at a freshly appended, zeroed
    /// level-0 table page keeps the table well formed and its mappings
    /// unchanged.
    proof fn lemma_new_leaf(old_pt: &PageTable, new_pt: &PageTable, j: int, e: Pte)
        requires
            old_pt.wf(),
            0 <= j < old_pt.mid@.len(),
            !valid_bits(old_pt.mid@[j].0),
            valid_bits(e.0),
            dir_entry(e),
            frame_of(e.0) == old_pt.leaf@.len() / 512,
            old_pt.leaf@.len() / 512 < MAX_TABLE_PAGES,
            new_pt.root@ == old_pt.root@,
            new_pt.mid@ == old_pt.mid@.update(j, e),
            new_pt.leaf@ == old_pt.leaf@ + zero_table(),
        ensures
            new_pt.wf(),
            new_pt@ == old_pt@,
            forall|v: u64| #[trigger] old_pt.dirs_valid(v) ==> new_pt.dirs_valid(v),
            forall|v: u64| #[trigger] old_pt.dirs_valid(v) ==> new_pt.leaf_entry(v) == old_pt.leaf_entry(v),
    {
        let n = old_pt.leaf@.len() / 512;
        assert(new_pt.leaf@.len() / 512 == n + 1);
        assert forall|i: int|
            0 <= i < 512 && #[trigger] valid_bits(new_pt.root@[i].0) implies frame_of(
                new_pt.root@[i].0,
            ) < new_pt.mid@.len() / 512 by {
            assert(valid_bits(old_pt.root@[i].0));
        }
        assert forall|jj: int|
            0 <= jj < new_pt.mid@.len() && #[trigger] valid_bits(new_pt.mid@[jj].0) implies frame_of(
                new_pt.mid@[jj].0,
            ) < new_pt.leaf@.len() / 512 by {
            if jj != j {
                assert(valid_bits(old_pt.mid@[jj].0));
            }
        }
        assert forall|i1: int, i2: int|
            0 <= i1 < 512 && 0 <= i2 < 512 && i1 != i2 && #[trigger] valid_bits(
                new_pt.root@[i1].0,
            ) && #[trigger] valid_bits(new_pt.root@[i2].0) implies frame_of(new_pt.root@[i1].0)
            != frame_of(new_pt.root@[i2].0) by {
            assert(valid_bits(old_pt.root@[i1].0));
            assert(valid_bits(old_pt.root@[i2].0));
        }
        assert forall|j1: int, j2: int|
            0 <= j1 < new_pt.mid@.len() && 0 <= j2 < new_pt.mid@.len() && j1 != j2
                && #[trigger] valid_bits(new_pt.mid@[j1].0) && #[trigger] valid_bits(
                new_pt.mid@[j2].0,
            ) implies frame_of(new_pt.mid@[j1].0) != frame_of(new_pt.mid@[j2].0) by {
            if j1 != j {
                assert(valid_bits(old_pt.mid@[j1].0));
            }
            if j2 != j {
                assert(valid_bits(old_pt.mid@[j2].0));
            }
        }
        assert forall|va: u64|
            #[trigger] new_pt.mapped(va) == old_pt.mapped(va) && (old_pt.mapped(va)
                ==> new_pt.leaf_slot(va) == old_pt.leaf_slot(va)) by {
            if page_va(va) && valid_bits(old_pt.root@[px_spec(2, va) as int].0) {
                let r = px_spec(2, va) as int;
                assert(new_pt.root@[r] == old_pt.root@[r]);
                let ms = old_pt.mid_slot(va);
                assert(0 <= ms < old_pt.mid@.len());
                if ms == j {
                    let ls = new_pt.leaf_slot(va);
                    assert(ls >= old_pt.leaf@.len());
                    assert(new_pt.leaf@[ls] == Pte(0));
                } else if valid_bits(old_pt.mid@[ms].0) {
                    let ls = old_pt.leaf_slot(va);
                    assert(ls < old_pt.leaf@.len());
                    assert(new_pt.leaf@[ls] == old_pt.leaf@[ls]);
                }
            }
        }
        assert(new_pt@ =~= old_pt@);
        assert forall|v: u64| #[trigger] old_pt.dirs_valid(v) implies new_pt.dirs_valid(v) by {
            let ms = old_pt.mid_slot(v);
            assert(new_pt.mid_slot(v) == ms);
            assert(ms != j);
            old_pt.lemma_slots_in_bounds(v);
            assert(new_pt.leaf_slot(v) == old_pt.leaf_slot(v));
            assert(new_pt.leaf@[old_pt.leaf_slot(v)] == old_pt.leaf@[old_pt.leaf_slot(v)]);
        }
    }

    /// Writing the level-0 slot that `va` walks to changes the mapping of
    /// `va` and nothing else.
    proof fn lemma_set_leaf(old_pt: &PageTable, new_pt: &PageTable, va: u64, e: Pte)
        requires
            old_pt.wf(),
            page_va(va),
            old_pt.dirs_valid(va),
            new_pt.root@ == old_pt.root@,
            new_pt.mid@ == old_pt.mid@,
            new_pt.leaf@ == old_pt.leaf@.update(old_pt.leaf_slot(va), e),
        ensures
            new_pt.wf(),
            valid_bits(e.0) ==> new_pt@ == old_pt@.insert(va, e),
            !valid_bits(e.0) ==> new_pt@ == old_pt@.remove(va),
            new_pt.leaf_entry(va) == Some(e),
            forall|v: u64|
                page_va(v) && v != va ==> #[trigger] new_pt.leaf_entry(v) == old_pt.leaf_entry(v),
    {
        old_pt.lemma_slots_in_bounds(va);
        let s = old_pt.leaf_slot(va);
        assert forall|v: u64|
            v != va implies (#[trigger] new_pt.mapped(v) == old_pt.mapped(v) && (old_pt.mapped(v)
                ==> new_pt.leaf@[new_pt.leaf_slot(v)] == old_pt.leaf@[old_pt.leaf_slot(v)])) by {
            if page_va(v) && old_pt.dirs_valid(v) {
                old_pt.lemma_slots_in_bounds(v);
                if old_pt.leaf_slot(v) == s {
                    old_pt.lemma_leaf_slot_injective(v, va);
                }
            }
        }
        assert(new_pt.mapped(va) == valid_bits(e.0));
        if valid_bits(e.0) {
            assert(new_pt@ =~= old_pt@.insert(va, e));
        } else {
            assert(new_pt@ =~= old_pt@.remove(va));
        }
        assert forall|v: u64| page_va(v) && v != va implies #[trigger] new_pt.leaf_entry(v)
            == old_pt.leaf_entry(v) by {
            if old_pt.dirs_valid(v) {
                old_pt.lemma_slots_in_bounds(v);
                if old_pt.leaf_slot(v) == s {
                    old_pt.lemma_leaf_slot_injective(v, va);
                }
            }
        }
    }
}

impl PageTable {
    /// Return the level-0 slot of the PTE that corresponds to virtual
    /// address va. If insert is true, create any required page-table pages;
    /// None then means a table page could not be had: the level that had to
    /// grow (level 1 while the root entry stays invalid, else level 0) did
    /// not.
    ///
    /// The risc-v Sv39 scheme has three levels of page-table
    /// pages. A page-table page contains 512 64-bit PTEs.
    /// A 64-bit virtual address is split into five fields:
    ///   39..63 -- must be zero.
    ///   30..38 -- 9 bits of level-2 index.
    ///   21..29 -- 9 bits of level-1 index.
    ///   12..20 -- 9 bits of level-0 index.
    ///    0..11 -- 12 bits of byte offset within the page.
    fn get_or_choose_insert(&mut self, va: u64, insert: bool) -> (r: Option<usize>)
        requires
            old(self).wf(),
            va < MAXVA,
        ensures
            final(self).wf(),
            final(self)@ == old(self)@,
            !insert ==> final(self).root@ == old(self).root@ && final(self).mid@ == old(
                self,
            ).mid@ && final(self).leaf@ == old(self).leaf@,
            old(self).dirs_valid(va) ==> r is Some,
            forall|v: u64| #[trigger] old(self).dirs_valid(v) ==> final(self).dirs_valid(v),
            forall|v: u64| #[trigger] old(self).dirs_valid(v) ==> final(self).leaf_entry(v) == old(
                self,
            ).leaf_entry(v),
            forall|i: int|
                0 <= i < 512 && i != px_spec(2, va) ==> #[trigger] final(self).root@[i] == old(
                    self,
                ).root@[i],
            old(self).dirs_valid(va) ==> final(self).root@ == old(self).root@ && final(self).mid@
                == old(self).mid@ && final(self).leaf@ == old(self).leaf@,
            match r {
                Some(s) => {
                    &&& final(self).dirs_valid(va)
                    &&& s == final(self).leaf_slot(va)
                    &&& s < final(self).leaf@.len()
                },
                None => {
                    &&& !insert ==> !old(self).dirs_valid(va)
                    &&& !final(self).dirs_valid(va)
                    &&& final(self).leaf@ == old(self).leaf@
                    &&& !valid_bits(final(self).root@[px_spec(2, va) as int].0) ==> final(self).mid@
                        == old(self).mid@
                },
            },
    {
        let i2 = px(2, va);
        if !self.root[i2].valid() {
            if !insert {
                return None;
            }
            let ghost before = *self;
            let n = match alloc_table(&mut self.mid) {
                Some(n) => n,
                None => return None,
            };
            let e = Pte::new((n as u64) * PGSIZE, PteFlags::empty());
            proof {
                lemma_pte_bits((n as u64 * PGSIZE) as u64, 0);
            }
            self.root[i2] = e;
            proof {
                PageTable::lemma_new_mid(&before, self, i2 as int, e);
            }
        }
        assert(valid_bits(self.root@[i2 as int].0));
        let pa2 = self.root[i2].pa();
        assert(pa2 / PGSIZE == frame_of(self.root@[i2 as int].0));
        assert(frame_of(self.root@[i2 as int].0) < self.mid@.len() / 512);
        let mlen = self.mid.len();
        assert(pa2 / PGSIZE < mlen);
        let t = (pa2 / PGSIZE) as usize;
        assert(t == frame_of(self.root@[i2 as int].0));
        assert(t * 512 + 512 <= self.mid@.len()) by (nonlinear_arith)
            requires
                t < self.mid@.len() / 512,
                self.mid@.len() % 512 == 0,
        ;
        let i1 = t * NPTE + px(1, va);
        assert(i1 == self.mid_slot(va));
        if !self.mid[i1].valid() {
            if !insert {
                return None;
            }
            let ghost before = *self;
            let n = match alloc_table(&mut self.leaf) {
                Some(n) => n,
                None => return None,
            };
            let e = Pte::new((n as u64) * PGSIZE, PteFlags::empty());
            proof {
                lemma_pte_bits((n as u64 * PGSIZE) as u64, 0);
            }
            self.mid[i1] = e;
            proof {
                PageTable::lemma_new_leaf(&before, self, i1 as int, e);
            }
        }
        assert(valid_bits(self.mid@[i1 as int].0));
        let pa1 = self.mid[i1].pa();
        assert(pa1 / PGSIZE == frame_of(self.mid@[i1 as int].0));
        assert(frame_of(self.mid@[i1 as int].0) < self.leaf@.len() / 512);
        let llen = self.leaf.len();
        assert(pa1 / PGSIZE < llen);
        let u = (pa1 / PGSIZE) as usize;
        assert(u == frame_of(self.mid@[i1 as int].0));
        assert(u * 512 + 512 <= self.leaf@.len()) by (nonlinear_arith)
            requires
                u < self.leaf@.len() / 512,
                self.leaf@.len() % 512 == 0,
        ;
        let s = u * NPTE + px(0, va);
        proof {
            self.lemma_slots_in_bounds(va);
        }
        Some(s)
    }
}

impl PageTable {
    /// The level-0 entry that maps page-aligned `va`, if it is mapped.
    pub fn lookup(&self, va: u64) -> (r: Option<Pte>)
        requires
            self.wf(),
            page_va(va),
        ensures
            r == (if self@.contains_key(va) {
                Some(self@[va])
            } else {
                None::<Pte>
            }),
    {
        let i2 = px(2, va);
        if !self.root[i2].valid() {
            return None;
        }
        let pa2 = self.root[i2].pa();
        assert(pa2 / PGSIZE == frame_of(self.root@[i2 as int].0));
        let mlen = self.mid.len();
        assert(pa2 / PGSIZE < mlen);
        let t = (pa2 / PGSIZE) as usize;
        assert(t * 512 + 512 <= self.mid@.len()) by (nonlinear_arith)
            requires
                t < self.mid@.len() / 512,
                self.mid@.len() % 512 == 0,
        ;
        let i1 = t * NPTE + px(1, va);
        if !self.mid[i1].valid() {
            return None;
        }
        let pa1 = self.mid[i1].pa();
        assert(pa1 / PGSIZE == frame_of(self.mid@[i1 as int].0));
        let llen = self.leaf.len();
        assert(pa1 / PGSIZE < llen);
        let u = (pa1 / PGSIZE) as usize;
        assert(u * 512 + 512 <= self.leaf@.len()) by (nonlinear_arith)
            requires
                u < self.leaf@.len() / 512,
                self.leaf@.len() % 512 == 0,
        ;
        let e = self.leaf[u * NPTE + px(0, va)];
        if e.valid() {
            Some(e)
        } else {
            None
        }
    }

    /// The physical address that user page `va` maps to, or 0 when it is not
    /// mapped or not accessible to user mode.
    pub fn walkaddr(&self, va: u64) -> (pa: u64)
        requires
            self.wf(),
            page_va(va),
        ensures
            pa == (if self@.contains_key(va) && self@[va].0 & PTE_U != 0 {
                pte2pa_spec(self@[va].0) as u64
            } else {
                0
            }),
    {
        match self.lookup(va) {
            None => 0,
            Some(pte) => {
                if pte.flags().intersects(PteFlags(PTE_U)) {
                    pte.pa()
                } else {
                    0
                }
            },
        }
    }

    /// Create PTEs for virtual addresses starting at va.start that refer to
    /// physical addresses starting at pa.
    /// va.start and va.end MUST be page-aligned.
    /// Returns Err(()) if a needed page-table page could not be allocated;
    /// the pages mapped before that stay mapped. Where the walks already
    /// exist, nothing is allocated and the insertion succeeds.
    #[verifier::rlimit(30)]
    pub fn insert(&mut self, va: Range<u64>, pa: u64, perm: PteFlags) -> (r: Result<(), ()>)
        requires
            old(self).wf(),
            va.start % PGSIZE == 0,
            va.end % PGSIZE == 0,
            va.start < va.end,
            va.end <= MAXVA,
            pa + (va.end - va.start) <= u64::MAX,
            forall|a: u64| #[trigger] pages(va.start, va.end).contains(a) ==> !old(self)@.contains_key(a),
        ensures
            final(self).wf(),
            r is Ok ==> final(self)@ == old(self)@.union_prefer_right(span(va.start, va.end, pa, perm)),
            (forall|a: u64| #[trigger] pages(va.start, va.end).contains(a) ==> old(self).has_walk(a))
                ==> r is Ok,
            r is Ok ==> forall|a: u64| #[trigger] pages(va.start, va.end).contains(a)
                ==> final(self).has_walk(a),
            forall|b: u64| #[trigger] old(self).has_walk(b) ==> final(self).has_walk(b),
            forall|v: u64|
                page_va(v) && !pages(va.start, va.end).contains(v) && old(self).has_walk(v) ==> #[trigger] final(self).leaf_entry(v) == old(self).leaf_entry(v),
            r is Err ==> exists|k: u64|
                #![trigger span(va.start, k, pa, perm)]
                va.start <= k < va.end && k % PGSIZE == 0 && final(self)@ == old(
                    self,
                )@.union_prefer_right(span(va.start, k, pa, perm)) && !old(self).has_walk(k),
    {
        let start = va.start;
        let end = va.end;
        let mut a = start;
        let mut p = pa;
        assert(old(self)@.union_prefer_right(span(start, start, pa, perm)) =~= old(self)@);
        while a < end
            invariant
                self.wf(),
                start == va.start,
                end == va.end,
                start <= a <= end,
                a % PGSIZE == 0,
                end % PGSIZE == 0,
                end <= MAXVA,
                p == pa + (a - start),
                pa + (end - start) <= u64::MAX,
                self@ == old(self)@.union_prefer_right(span(start, a, pa, perm)),
                forall|b: u64| #[trigger] pages(start, end).contains(b) ==> !old(self)@.contains_key(b),
                (forall|b: u64| #[trigger] pages(start, end).contains(b) ==> old(self).has_walk(b))
                    ==> self.root@ == old(self).root@ && self.mid@ == old(self).mid@,
                forall|b: u64| #[trigger] pages(start, a).contains(b) ==> self.has_walk(b),
                forall|b: u64| #[trigger] old(self).has_walk(b) ==> self.has_walk(b),
                forall|v: u64|
                    page_va(v) && !pages(start, end).contains(v) && old(self).has_walk(v) ==> #[trigger] self.leaf_entry(v) == old(self).leaf_entry(v),
            decreases end - a,
        {
            let ghost before = *self;
            proof {
                if forall|b: u64| #[trigger] pages(start, end).contains(b) ==> old(self).has_walk(b) {
                    assert(pages(start, end).contains(a));
                    assert(old(self).has_walk(a));
                    assert(self.dirs_valid(a));
                }
            }
            let slot = match self.get_or_choose_insert(a, true) {
                Some(s) => s,
                None => {
                    assert(!old(self).has_walk(a));
                    assert(start <= a < end && a % PGSIZE == 0 && self@ == old(
                        self,
                    )@.union_prefer_right(span(start, a, pa, perm)) && !old(self).has_walk(a));
                    return Err(());
                },
            };
            assert(pages(start, end).contains(a));
            assert(!self@.contains_key(a));
            let e = Pte::new(p, perm);
            let ghost mid = *self;
            self.leaf[slot] = e;
            proof {
                PageTable::lemma_set_leaf(&mid, self, a, e);
                lemma_span_step(old(self)@, start, a, pa, perm);
                assert(self.dirs_valid(a));
                assert forall|b: u64| #[trigger] mid.dirs_valid(b) implies self.dirs_valid(b) by {}
                assert forall|b: u64| #[trigger] pages(start, (a + PGSIZE) as u64).contains(b) implies self.has_walk(b) by {
                    if b != a {
                        assert(pages(start, a).contains(b));
                        assert(before.has_walk(b));
                    }
                }
            }
            a = a + PGSIZE;
            p = p + PGSIZE;
        }
        proof {
            lemma_pages_end(start, a, end);
        }
        Ok(())
    }

    /// Remove the mappings of the pages from va.start up to va.end. va.start
    /// must be page-aligned. The mappings must exist.
    /// When do_free is set, return the physical pages they mapped, in
    /// order, so that they can be freed.
    #[verifier::rlimit(30)]
    pub fn remove(&mut self, va: Range<u64>, do_free: bool) -> (freed: Vec<u64>)
        requires
            old(self).wf(),
            va.start % PGSIZE == 0,
            va.end <= MAXVA,
            forall|a: u64| #[trigger]
                pages(va.start, va.end).contains(a) ==> old(self)@.contains_key(a) && is_leaf(
                    old(self)@[a],
                ),
        ensures
            final(self).wf(),
            final(self)@ == old(self)@.remove_keys(pages(va.start, va.end)),
            forall|b: u64| #[trigger] final(self).has_walk(b) == old(self).has_walk(b),
            forall|a: u64| #[trigger]
                pages(va.start, va.end).contains(a) ==> final(self).leaf_entry(a) == Some(Pte(0)),
            forall|v: u64|
                page_va(v) && !pages(va.start, va.end).contains(v) && old(self).has_walk(v) ==> #[trigger] final(self).leaf_entry(v) == old(self).leaf_entry(v),
            freed@ == (if do_free {
                freed_pages(old(self)@, va.start, va.end)
            } else {
                Seq::empty()
            }),
    {
        let start = va.start;
        let end = va.end;
        let mut a = start;
        let mut freed: Vec<u64> = Vec::new();
        assert(old(self)@.remove_keys(pages(start, start)) =~= old(self)@);
        assert(freed_pages(old(self)@, start, start) =~= Seq::empty());
        while a < end
            invariant
                self.wf(),
                start <= a,
                a < end + PGSIZE || a == start,
                a % PGSIZE == 0,
                start % PGSIZE == 0,
                end <= MAXVA,
                self@ == old(self)@.remove_keys(pages(start, a)),
                self.root@ == old(self).root@,
                self.mid@ == old(self).mid@,
                forall|b: u64| #[trigger]
                    pages(start, a).contains(b) ==> self.leaf_entry(b) == Some(Pte(0)),
                forall|v: u64|
                    page_va(v) && !pages(start, end).contains(v) && old(self).has_walk(v) ==> #[trigger] self.leaf_entry(v) == old(self).leaf_entry(v),
                forall|b: u64| #[trigger]
                    pages(start, end).contains(b) ==> old(self)@.contains_key(b) && is_leaf(
                        old(self)@[b],
                    ),
                freed@ == (if do_free {
                    freed_pages(old(self)@, start, a)
                } else {
                    Seq::empty()
                }),
            decreases end + PGSIZE - a,
        {
            assert(pages(start, end).contains(a));
            assert(self@.contains_key(a));
            assert(!pages(start, a).contains(a));
            let ghost at_start = *self;
            let slot = match self.get_or_choose_insert(a, false) {
                Some(s) => s,
                None => {
                    assert(false);
                    return freed;
                },
            };
            assert(self@.contains_key(a));
            assert(self@[a] == self.leaf@[self.leaf_slot(a)]);
            assert(self.leaf@[slot as int] == old(self)@[a]);
            if do_free {
                let pa = self.leaf[slot].pa();
                proof {
                    lemma_freed_pages_step(old(self)@, start, a);
                }
                freed.push(pa);
            }
            let ghost mid = *self;
            self.leaf[slot] = Pte(0);
            proof {
                PageTable::lemma_set_leaf(&mid, self, a, Pte(0));
                assert forall|v: u64|
                    page_va(v) && !pages(start, end).contains(v) && old(self).has_walk(v) implies #[trigger] self.leaf_entry(v) == old(self).leaf_entry(v) by {
                    assert(pages(start, end).contains(a));
                    assert(v != a);
                    assert(self.leaf_entry(v) == mid.leaf_entry(v));
                    assert(mid.root@ == at_start.root@ && mid.mid@ == at_start.mid@ && mid.leaf@
                        == at_start.leaf@);
                    assert(mid.leaf_entry(v) == at_start.leaf_entry(v));
                }
                assert forall|b: u64| #[trigger] pages(start, (a + PGSIZE) as u64).contains(b)
                    implies self.leaf_entry(b) == Some(Pte(0)) by {
                    if b != a {
                        assert(pages(start, a).contains(b));
                        assert(mid.leaf_entry(b) == Some(Pte(0)));
                        assert(pages(start, end).contains(b));
                        if mid.leaf_slot(b) == mid.leaf_slot(a) {
                            mid.lemma_leaf_slot_injective(b, a);
                        }
                    }
                }
                lemma_pages_step(start, a);
                assert(self@ =~= old(self)@.remove_keys(pages(start, (a + PGSIZE) as u64)));
            }
            a = a + PGSIZE;
        }
        proof {
            lemma_pages_end(start, a, end);
        }
        freed
    }
}

/// A fresh page table, with no mappings; Err(()) when memory for the root
/// table page cannot be had.
pub fn uvmcreate() -> (r: Result<PageTable, ()>)
    ensures
        r matches Ok(pt) ==> pt.wf() && pt@ == Map::<u64, Pte>::empty(),
{
    let mut root: Vec<Pte> = Vec::new();
    match alloc_table(&mut root) {
        Some(_) => {},
        None => return Err(()),
    }
    let pt = PageTable { root, mid: Vec::new(), leaf: Vec::new() };
    assert(pt.root@ == zero_table());
    assert forall|i: int| 0 <= i < 512 implies !valid_bits(#[trigger] pt.root@[i].0) by {
        assert(pt.root@[i] == Pte(0));
    }
    assert(pt@ =~= Map::<u64, Pte>::empty());
    Ok(pt)
}

/// The contents of the initcode page: the code `src`, then zeros.
pub fn initcode_page(src: &[u8]) -> (page: Vec<u8>)
    requires
        src@.len() <= PGSIZE,
    ensures
        page@.len() == PGSIZE,
        page@.take(src@.len() as int) == src@,
        forall|k: int| src@.len() <= k < PGSIZE ==> #[trigger] page@[k] == 0,
{
    let mut page: Vec<u8> = Vec::new();
    let mut k: usize = 0;
    while k < PGSIZE as usize
        invariant
            k <= PGSIZE,
            src@.len() <= PGSIZE,
            page@.len() == k,
            forall|j: int| 0 <= j < k && j < src@.len() ==> #[trigger] page@[j] == src@[j],
            forall|j: int| src@.len() <= j < k ==> #[trigger] page@[j] == 0,
        decreases PGSIZE - k,
    {
        if k < src.len() {
            page.push(src[k]);
        } else {
            page.push(0);
        }
        k = k + 1;
    }
    assert(page@.take(src@.len() as int) =~= src@);
    page
}

/// Map the user initcode page at address 0 of pagetable, for the very
/// first process: `mem` is the physical page that is to hold the code,
/// which must be less than a page. Returns what the page is to hold: the
/// code, then zeros. Err(()), with the table as it was, only when a table
/// page had to be allocated and could not be.
pub fn uvmfirst(pagetable: &mut PageTable, mem: u64, src: &[u8]) -> (r: Result<Vec<u8>, ()>)
    requires
        old(pagetable).wf(),
        src@.len() < PGSIZE,
        mem + PGSIZE <= u64::MAX,
        !old(pagetable)@.contains_key(0),
    ensures
        final(pagetable).wf(),
        r is Ok ==> final(pagetable)@ == old(pagetable)@.insert(
            0,
            Pte(pte_bits(mem, PTE_W | PTE_R | PTE_X | PTE_U)),
        ),
        r matches Ok(page) ==> {
            &&& page@.len() == PGSIZE
            &&& page@.take(src@.len() as int) == src@
            &&& forall|k: int| src@.len() <= k < PGSIZE ==> #[trigger] page@[k] == 0
        },
        r is Err ==> final(pagetable)@ == old(pagetable)@,
        old(pagetable).has_walk(0) ==> r is Ok,
{
    let perm = PteFlags(PTE_W).union(PteFlags(PTE_R)).union(PteFlags(PTE_X)).union(PteFlags(PTE_U));
    assert(perm.0 == PTE_W | PTE_R | PTE_X | PTE_U);
    assert forall|a: u64| #[trigger] pages(0, PGSIZE).contains(a) implies !old(pagetable)@.contains_key(a) by {
        assert(a == 0);
    }
    assert(old(pagetable).has_walk(0) ==> forall|a: u64| #[trigger] pages(0, PGSIZE).contains(a)
        ==> old(pagetable).has_walk(a)) by {
        assert forall|a: u64| #[trigger] pages(0, PGSIZE).contains(a) implies a == 0 by {}
    }
    let r = pagetable.insert(0..PGSIZE, mem, perm);
    proof {
        if r is Ok {
            assert(pagetable@ =~= old(pagetable)@.insert(0, Pte(pte_bits(mem, perm.0))));
        } else {
            let k = choose|k: u64|
                #![trigger span(0, k, mem, perm)]
                0 <= k < PGSIZE && k % PGSIZE == 0 && pagetable@ == old(
                    pagetable,
                )@.union_prefer_right(span(0, k, mem, perm));
            assert(k == 0);
            assert(pagetable@ =~= old(pagetable)@);
        }
    }
    match r {
        Ok(_) => Ok(initcode_page(src)),
        Err(_) => Err(()),
    }
}

/// Mark a page invalid for user access: clear the U bit of the level-0
/// entry for `va` (exec does this to the stack guard page). The walk to
/// `va` must exist.
pub fn uvmclear(pagetable: &mut PageTable, va: u64)
    requires
        old(pagetable).wf(),
        page_va(va),
        old(pagetable).has_walk(va),
    ensures
        final(pagetable).wf(),
        final(pagetable).leaf_entry(va) == Some(Pte(old(pagetable).leaf_entry(va)->Some_0.0 & !PTE_U)),
        final(pagetable)@ == (if old(pagetable)@.contains_key(va) {
            old(pagetable)@.insert(va, Pte(old(pagetable)@[va].0 & !PTE_U))
        } else {
            old(pagetable)@
        }),
        forall|b: u64| #[trigger] final(pagetable).has_walk(b) == old(pagetable).has_walk(b),
        forall|v: u64|
            page_va(v) && v != va ==> #[trigger] final(pagetable).leaf_entry(v) == old(
                pagetable,
            ).leaf_entry(v),
{
    let slot = match pagetable.get_or_choose_insert(va, false) {
        Some(s) => s,
        None => {
            assert(false);
            return;
        },
    };
    let ghost mid = *pagetable;
    let x = pagetable.leaf[slot].0;
    let e = Pte(x & !PTE_U);
    assert((x & !16u64) % 2 == x % 2) by (bit_vector);
    pagetable.leaf[slot] = e;
    proof {
        PageTable::lemma_set_leaf(&mid, pagetable, va, e);
    }
}

/// Free user memory pages, then the page-table pages: return the physical
/// pages that the mappings of `[0, sz)` pointed at, in order, for freeing.
/// No other mapping may remain when the table pages are freed.
pub fn uvmfree(pagetable: PageTable, sz: u64) -> (freed: Vec<u64>)
    requires
        pagetable.wf(),
        sz <= MAXVA,
        forall|a: u64| #[trigger]
            pages(0, sz).contains(a) ==> pagetable@.contains_key(a) && is_leaf(pagetable@[a]),
        forall|a: u64| #[trigger] pagetable@.contains_key(a) ==> pages(0, sz).contains(a),
    ensures
        freed@ == freed_pages(pagetable@, 0, sz),
{
    let mut pagetable = pagetable;
    if sz > 0 {
        pagetable.remove(0..sz, true)
    } else {
        assert(freed_pages(pagetable@, 0, sz) =~= Seq::empty());
        Vec::new()
    }
}

/// Removing the pages that an insertion mapped gives back the mappings
/// from before the insertion: `remove` undoes `insert`.
pub proof fn lemma_remove_undoes_insert(
    m: Map<u64, Pte>,
    start: u64,
    end: u64,
    pa: u64,
    perm: PteFlags,
)
    requires
        forall|a: u64| #[trigger] pages(start, end).contains(a) ==> !m.contains_key(a),
    ensures
        m.union_prefer_right(span(start, end, pa, perm)).remove_keys(pages(start, end)) == m,
{
    assert(m.union_prefer_right(span(start, end, pa, perm)).remove_keys(pages(start, end)) =~= m);
}

/// After an insertion with flags beyond the V bit, each page of the range
/// holds a leaf entry for the matching page of the physical range, and the
/// pages that `remove` frees for the range are exactly those physical
/// pages, in order.
pub proof fn lemma_remove_frees_inserted(
    m: Map<u64, Pte>,
    start: u64,
    end: u64,
    pa: u64,
    perm: PteFlags,
)
    requires
        start % PGSIZE == 0,
        end % PGSIZE == 0,
        start < end,
        pa % PGSIZE == 0,
        pa + (end - start) <= u64::MAX,
        2 <= perm.0 < 1024,
    ensures
        forall|a: u64| #[trigger]
            pages(start, end).contains(a) ==> m.union_prefer_right(
                span(start, end, pa, perm),
            )[a].0 == pte_bits((pa + (a - start)) as u64, perm.0) && is_leaf(
                m.union_prefer_right(span(start, end, pa, perm))[a],
            ),
        freed_pages(m.union_prefer_right(span(start, end, pa, perm)), start, end) == Seq::new(
            ((end - start) / PGSIZE as int) as nat,
            |k: int| (pa + k * PGSIZE) as u64,
        ),
{
    let mm = m.union_prefer_right(span(start, end, pa, perm));
    let f = perm.0;
    assert forall|a: u64| #[trigger] pages(start, end).contains(a) implies mm[a].0 == pte_bits(
        (pa + (a - start)) as u64,
        perm.0,
    ) && is_leaf(mm[a]) by {
        let b = (pa + (a - start)) as u64;
        assert(2 <= f ==> (((b >> 12u64) << 10u64) | (f | 1u64)) != 1) by (bit_vector);
    }
    let n = ((end - start) / PGSIZE as int) as nat;
    assert(page_count(start, end) == n) by (nonlinear_arith)
        requires
            start % 4096 == 0,
            end % 4096 == 0,
            start < end,
            n == (end - start) / 4096,
            page_count(start, end) == ((end - start + 4096 - 1) / 4096) as nat,
    {
        let q = (end - start) / 4096;
        assert(end - start == q * 4096);
    }
    assert forall|k: int| 0 <= k < n implies #[trigger] freed_pages(mm, start, end)[k] == (pa + k
        * PGSIZE) as u64 by {
        let a = (start + k * PGSIZE) as u64;
        assert(k * 4096 < end - start) by (nonlinear_arith)
            requires
                0 <= k < n,
                n == (end - start) / 4096,
                end > start,
        ;
        assert(a % 4096 == 0) by (nonlinear_arith)
            requires
                a == start + k * 4096,
                start % 4096 == 0,
        ;
        assert(pages(start, end).contains(a));
        let b = (pa + (a - start)) as u64;
        assert(b % 4096 == 0) by (nonlinear_arith)
            requires
                b == pa + k * 4096,
                pa % 4096 == 0,
        ;
        lemma_pte_bits(b, f);
    }
    assert(freed_pages(mm, start, end) =~= Seq::new(n, |k: int| (pa + k * PGSIZE) as u64));
}

/// A user address space: its page table and the size of its user memory.
pub struct Vm {
    pub pagetable: PageTable,
    pub sz: u64,
}

/// A process's address space: a user page table that also maps the
/// trampoline and trapframe pages.
pub struct ProcVm(pub Vm);

/// The mappings of a fresh process page table: the trampoline code (for
/// system call return) at the highest user virtual address, for the
/// supervisor only, and the trapframe page just below it.
pub open spec fn proc_mappings(trampoline: u64, trapframe: u64) -> Map<u64, Pte> {
    map![
        TRAMPOLINE => Pte(pte_bits(trampoline, PTE_R | PTE_X)),
        TRAPFRAME => Pte(pte_bits(trapframe, PTE_R | PTE_W)),
    ]
}

impl ProcVm {
    /// Create a user page table for a process, with no user memory, but
    /// with the trampoline page (at physical address `trampoline`) and the
    /// process's trapframe page (at physical address `trapframe`). Err(())
    /// when memory for a table page cannot be had; the allocator decides.
    pub fn new(trampoline: u64, trapframe: u64) -> (r: Result<Self, ()>)
        requires
            trampoline + PGSIZE <= u64::MAX,
            trapframe + PGSIZE <= u64::MAX,
        ensures
            r matches Ok(pv) ==> {
                &&& pv.0.pagetable.wf()
                &&& pv.0.pagetable@ == proc_mappings(trampoline, trapframe)
                &&& pv.0.sz == 0
            },
    {
        let mut pagetable = match uvmcreate() {
            Ok(pt) => pt,
            Err(_) => return Err(()),
        };
        let rx = PteFlags(PTE_R).union(PteFlags(PTE_X));
        assert(rx.0 == PTE_R | PTE_X);
        assert forall|a: u64| #[trigger] pages(TRAMPOLINE, (TRAMPOLINE + PGSIZE) as u64).contains(
            a,
        ) implies !pagetable@.contains_key(a) by {}
        match pagetable.insert(TRAMPOLINE..TRAMPOLINE + PGSIZE, trampoline, rx) {
            Ok(_) => {},
            Err(_) => return Err(()),
        }
        let ghost after_trampoline = pagetable@;
        assert(after_trampoline =~= map![TRAMPOLINE => Pte(pte_bits(trampoline, rx.0))]);
        let rw = PteFlags(PTE_R).union(PteFlags(PTE_W));
        assert(rw.0 == PTE_R | PTE_W);
        assert forall|a: u64| #[trigger] pages(TRAPFRAME, (TRAPFRAME + PGSIZE) as u64).contains(
            a,
        ) implies !pagetable@.contains_key(a) by {
            assert(a == TRAPFRAME);
        }
        match pagetable.insert(TRAPFRAME..TRAPFRAME + PGSIZE, trapframe, rw) {
            Ok(_) => {
                assert(pagetable@ =~= proc_mappings(trampoline, trapframe));
                Ok(ProcVm(Vm { pagetable, sz: 0 }))
            },
            Err(_) => {
                proof {
                    let k = choose|k: u64|
                        #![trigger span(TRAPFRAME, k, trapframe, rw)]
                        TRAPFRAME <= k < TRAPFRAME + PGSIZE && k % PGSIZE == 0 && pagetable@
                            == after_trampoline.union_prefer_right(span(TRAPFRAME, k, trapframe, rw));
                    assert(k == TRAPFRAME);
                    assert(pagetable@ =~= after_trampoline);
                    let b = trampoline;
                    assert((((b >> 12u64) << 10u64) | (10u64 | 1u64)) != 1) by (bit_vector);
                    assert(2u64 | 8u64 == 10u64) by (bit_vector);
                }
                assert forall|a: u64| #[trigger] pages(TRAMPOLINE, (TRAMPOLINE + PGSIZE) as u64).contains(
                    a,
                ) implies pagetable@.contains_key(a) && is_leaf(pagetable@[a]) by {
                    assert(a == TRAMPOLINE);
                }
                let _ = pagetable.remove(TRAMPOLINE..TRAMPOLINE + PGSIZE, false);
                Err(())
            },
        }
    }

    /// Give up the process address space without unmapping anything.
    pub fn leak(self) -> (pt: PageTable)
        ensures
            pt == self.0.pagetable,
    {
        self.0.pagetable
    }

    /// Unmap the trampoline and trapframe pages (without freeing them), and
    /// give back the user address space, whose memory uvmfree frees.
    pub fn drop(self) -> (vm: Vm)
        requires
            self.0.pagetable.wf(),
            self.0.pagetable@.contains_key(TRAMPOLINE),
            is_leaf(self.0.pagetable@[TRAMPOLINE]),
            self.0.pagetable@.contains_key(TRAPFRAME),
            is_leaf(self.0.pagetable@[TRAPFRAME]),
        ensures
            vm.pagetable.wf(),
            vm.pagetable@ == self.0.pagetable@.remove(TRAMPOLINE).remove(TRAPFRAME),
            vm.sz == self.0.sz,
    {
        let ProcVm(Vm { mut pagetable, sz }) = self;
        let ghost start = pagetable@;
        assert forall|a: u64| #[trigger] pages(TRAMPOLINE, (TRAMPOLINE + PGSIZE) as u64).contains(
            a,
        ) implies pagetable@.contains_key(a) && is_leaf(pagetable@[a]) by {
            assert(a == TRAMPOLINE);
        }
        let _ = pagetable.remove(TRAMPOLINE..TRAMPOLINE + PGSIZE, false);
        assert(pagetable@ =~= start.remove(TRAMPOLINE));
        assert forall|a: u64| #[trigger] pages(TRAPFRAME, (TRAPFRAME + PGSIZE) as u64).contains(
            a,
        ) implies pagetable@.contains_key(a) && is_leaf(pagetable@[a]) by {
            assert(a == TRAPFRAME);
        }
        let _ = pagetable.remove(TRAPFRAME..TRAPFRAME + PGSIZE, false);
        assert(pagetable@ =~= start.remove(TRAMPOLINE).remove(TRAPFRAME));
        Vm { pagetable, sz }
    }
}

/// After inserting `[start, end)`, every page of the range is mapped to
/// its PTE for the matching physical page, and every other address keeps
/// its mapping (or its absence of one): a lookup after an insertion gives
/// back what was inserted and nothing else changes.
pub proof fn lemma_insert_then_lookup(
    m: Map<u64, Pte>,
    start: u64,
    end: u64,
    pa: u64,
    perm: PteFlags,
    a: u64,
)
    ensures
        pages(start, end).contains(a) ==> {
            &&& m.union_prefer_right(span(start, end, pa, perm)).contains_key(a)
            &&& m.union_prefer_right(span(start, end, pa, perm))[a] == Pte(
                pte_bits((pa + (a - start)) as u64, perm.0),
            )
        },
        !pages(start, end).contains(a) ==> {
            &&& m.union_prefer_right(span(start, end, pa, perm)).contains_key(a)
                == m.contains_key(a)
            &&& m.contains_key(a) ==> m.union_prefer_right(span(start, end, pa, perm))[a] == m[a]
        },
{
}

/// A fresh process address space, once its trampoline and trapframe are
/// unmapped again, has no mappings left.
pub proof fn lemma_proc_vm_new_then_drop(trampoline: u64, trapframe: u64)
    ensures
        proc_mappings(trampoline, trapframe).remove(TRAMPOLINE).remove(TRAPFRAME) == Map::<
            u64,
            Pte,
        >::empty(),
        is_leaf(proc_mappings(trampoline, trapframe)[TRAMPOLINE]),
        is_leaf(proc_mappings(trampoline, trapframe)[TRAPFRAME]),
{
    assert(proc_mappings(trampoline, trapframe).remove(TRAMPOLINE).remove(TRAPFRAME) =~= Map::<
        u64,
        Pte,
    >::empty());
    let b = trampoline;
    let c = trapframe;
    assert((((b >> 12u64) << 10u64) | ((2u64 | 8u64) | 1u64)) != 1) by (bit_vector);
    assert((((c >> 12u64) << 10u64) | ((2u64 | 4u64) | 1u64)) != 1) by (bit_vector);
}

} // verus!
