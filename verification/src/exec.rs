//! Loading a program: the checks on its ELF headers and the layout of its
//! arguments on the new user stack.
use vstd::prelude::*;
use core::ops::Range;
use crate::vm::{PageTable, PteFlags, PTE_U, PTE_W, PTE_X, pages, page_count};
use crate::riscv::{MAXVA, pte2pa_spec, pgroundup, round_up};
use crate::riscv::PGSIZE;
use crate::proc::Trapframe;

verus! {

/// maximum exec arguments
pub const MAXARG: usize = 32;

/// ELF segment type of a loadable segment
pub const PT_LOAD: u32 = 1;

/// The stack of user addresses of the argument strings, ended by a zero,
/// that exec pushes below them: a fixed-capacity vector of MAXARG + 1
/// addresses.
#[verifier::external_body]
pub struct UStack {
    stack: heapless::Vec<u64, 33>,
}

/// The addresses on a `UStack`, bottom first.
pub uninterp spec fn ustack_items(s: UStack) -> Seq<u64>;

impl UStack {
    /// An empty stack (heapless::Vec::new).
    #[verifier::external_body]
    fn new() -> (s: UStack)
        ensures
            ustack_items(s) == Seq::<u64>::empty(),
    {
        UStack { stack: heapless::Vec::new() }
    }

    /// Append an address (heapless::Vec::push): it fails, handing the
    /// address back, only when the stack already holds 33.
    #[verifier::external_body]
    fn push(&mut self, x: u64) -> (r: Result<(), u64>)
        ensures
            r is Ok <==> ustack_items(*old(self)).len() < 33,
            r matches Err(y) ==> y == x,
            ustack_items(*final(self)) == (if ustack_items(*old(self)).len() < 33 {
                ustack_items(*old(self)).push(x)
            } else {
                ustack_items(*old(self))
            }),
    {
        self.stack.push(x)
    }

    /// The addresses, as a slice (heapless::Vec::as_slice).
    #[verifier::external_body]
    fn as_slice(&self) -> (r: &[u64])
        ensures
            r@ == ustack_items(*self),
    {
        self.stack.as_slice()
    }

    /// The stack as the bytes copied to user memory
    /// (bytemuck::cast_slice from u64 to u8): each address as its 8 bytes
    /// in memory order. That order is least significant byte first on the
    /// little-endian targets this kernel is built for (riscv64); the
    /// contract claims no more than that layout.
    #[verifier::external_body]
    fn bytes(&self) -> (r: Vec<u8>)
        ensures
            r@.len() == 8 * ustack_items(*self).len(),
            forall|k: int|
                0 <= k < r@.len() ==> #[trigger] r@[k] == le_byte(ustack_items(*self)[k / 8], k % 8),
    {
        bytemuck::cast_slice::<u64, u8>(self.stack.as_slice()).to_vec()
    }

    /// The addresses, bottom first.
    pub fn to_vec(&self) -> (v: Vec<u64>)
        ensures
            v@ == ustack_items(*self),
    {
        let s = self.as_slice();
        let mut v: Vec<u64> = Vec::new();
        let mut i: usize = 0;
        while i < s.len()
            invariant
                i <= s@.len(),
                v@ == s@.take(i as int),
            decreases s@.len() - i,
        {
            v.push(s[i]);
            i = i + 1;
            assert(v@ =~= s@.take(i as int));
        }
        assert(s@.take(s@.len() as int) =~= s@);
        v
    }
}

/// Byte `k` (0 the least significant) of `x`.
pub open spec fn le_byte(x: u64, k: int) -> u8 {
    ((x >> (8 * k) as u64) & 0xff) as u8
}

/// `x` rounded down to a multiple of 16 (riscv sp must be 16-byte aligned).
pub open spec fn align16(x: int) -> int {
    x - x % 16
}

/// The stack pointer after pushing the first `k` argument strings, of
/// lengths `lens` (each with its nul), below `top`.
pub open spec fn arg_sp(top: int, lens: Seq<u64>, k: nat) -> int
    decreases k,
{
    if k == 0 {
        top
    } else {
        align16(arg_sp(top, lens, (k - 1) as nat) - lens[k - 1])
    }
}

/// The stack pointer after also pushing the argv[] pointer array: the
/// argument addresses and a zero.
pub open spec fn argv_sp(top: int, lens: Seq<u64>) -> int {
    align16(arg_sp(top, lens, lens.len()) - (lens.len() + 1) * 8)
}

/// Whether pushing the arguments runs below the stack page `[base, top)`:
/// too many arguments, a string that does not fit, or no room left for the
/// pointer array.
pub open spec fn args_overflow(top: int, base: int, lens: Seq<u64>) -> bool {
    ||| lens.len() >= MAXARG
    ||| exists|k: nat| 1 <= k <= lens.len() && #[trigger] arg_sp(top, lens, k) < base
    ||| argv_sp(top, lens) < base
}

/// The permissions that ELF segment flags ask for: execute for PF_X,
/// write for PF_W.
pub fn flags2perm(flags: u32) -> (perm: PteFlags)
    ensures
        perm.0 == (if flags & 1 != 0 {
            PTE_X
        } else {
            0
        }) | (if flags & 2 != 0 {
            PTE_W
        } else {
            0
        }),
{
    assert(0u64 | 8u64 == 8u64 && 8u64 | 0u64 == 8u64 && 0u64 | 0u64 == 0u64 && 0u64 | 4u64
        == 4u64) by (bit_vector);
    let mut perm = PteFlags::empty();
    if flags & 0x1 != 0 {
        perm = perm.union(PteFlags(PTE_X));
    }
    if flags & 0x2 != 0 {
        perm = perm.union(PteFlags(PTE_W));
    }
    perm
}

/// Push the argument strings, of lengths `lens` (each with its nul),
/// onto the stack page that ends at `sz`, and then the argv[] array of
/// their addresses, ended by a zero. Returns the final stack pointer and
/// the addresses; Err(()) when they do not fit in the page.
pub fn push_args(sz: u64, lens: &[u64]) -> (r: Result<(u64, UStack), ()>)
    requires
        sz >= 2 * PGSIZE,
        forall|k: int| 0 <= k < lens@.len() ==> lens@[k] <= PGSIZE,
    ensures
        r is Err <==> args_overflow(sz as int, sz - PGSIZE, lens@),
        r matches Ok((sp, st)) ==> {
            &&& sp == argv_sp(sz as int, lens@)
            &&& ustack_items(st) == Seq::new(
                lens@.len(),
                |k: int| arg_sp(sz as int, lens@, (k + 1) as nat) as u64,
            ).push(0)
        },
{
    let mut sp = sz;
    let stackbase = sz - PGSIZE;
    if lens.len() >= MAXARG {
        return Err(());
    }
    let mut ustack = UStack::new();
    let mut i: usize = 0;
    while i < lens.len()
        invariant
            lens@.len() < MAXARG,
            i <= lens@.len(),
            stackbase == sz - PGSIZE,
            sz >= 2 * PGSIZE,
            forall|k: int| 0 <= k < lens@.len() ==> lens@[k] <= PGSIZE,
            sp == arg_sp(sz as int, lens@, i as nat),
            sp >= stackbase,
            forall|k: nat| 1 <= k <= i ==> #[trigger] arg_sp(sz as int, lens@, k) >= stackbase,
            ustack_items(ustack) == Seq::new(
                i as nat,
                |k: int| arg_sp(sz as int, lens@, (k + 1) as nat) as u64,
            ),
        decreases lens@.len() - i,
    {
        sp = sp - lens[i];
        sp = sp - sp % 16;
        assert(sp == arg_sp(sz as int, lens@, (i + 1) as nat));
        if sp < stackbase {
            return Err(());
        }
        let _ = ustack.push(sp);
        i = i + 1;
        assert(ustack_items(ustack) =~= Seq::new(
            i as nat,
            |k: int| arg_sp(sz as int, lens@, (k + 1) as nat) as u64,
        ));
    }
    let _ = ustack.push(0);
    // push the array of argv[] pointers.
    let n = lens.len() as u64 + 1;
    sp = sp - n * 8;
    sp = sp - sp % 16;
    if sp < stackbase {
        return Err(());
    }
    proof {
        assert(!args_overflow(sz as int, sz - PGSIZE, lens@));
    }
    Ok((sp, ustack))
}

/// Check a program header: a loadable segment must have no more file
/// bytes than memory bytes, must not wrap around the address space, and
/// must start on a page boundary. Returns whether the segment is loaded.
pub fn check_segment(p_type: u32, p_vaddr: u64, p_filesz: u64, p_memsz: u64) -> (r: Result<bool, ()>)
    ensures
        r == (if p_type != PT_LOAD {
            Ok(false)
        } else if p_memsz < p_filesz || p_vaddr + p_memsz > u64::MAX || p_vaddr % PGSIZE != 0 {
            Err(())
        } else {
            Ok(true)
        }),
{
    if p_type != PT_LOAD {
        return Ok(false);
    }
    if p_memsz < p_filesz {
        return Err(());
    }
    if p_vaddr.checked_add(p_memsz).is_none() {
        return Err(());
    }
    if p_vaddr % PGSIZE != 0 {
        return Err(());
    }
    Ok(true)
}

/// Whether the ELF identification starts with the magic "\x7fELF".
pub fn elf_magic_ok(ident: &[u8]) -> (r: bool)
    requires
        ident@.len() >= 4,
    ensures
        r == (ident@[0] == 0x7f && ident@[1] == 0x45 && ident@[2] == 0x4c && ident@[3] == 0x46),
{
    ident[0] == 0x7f && ident[1] == 0x45 && ident[2] == 0x4c && ident[3] == 0x46
}

/// Where the last component of the path in `s[0..i)` starts: just after
/// its last '/', or at 0.
pub open spec fn name_start_spec(s: Seq<u8>, i: int) -> int
    decreases i,
{
    if i <= 0 {
        0
    } else if s[i - 1] == 0x2f {
        i
    } else {
        name_start_spec(s, i - 1)
    }
}

/// Where the program name starts in a nul-terminated path: after its last
/// '/'. Exec saves that name for debugging.
pub fn name_start(path: &[u8]) -> (r: usize)
    requires
        exists|z: int| 0 <= z < path@.len() && path@[z] == 0,
    ensures
        exists|z: int|
            0 <= z < path@.len() && path@[z] == 0 && (forall|j: int| 0 <= j < z ==> path@[j] != 0)
                && r == name_start_spec(path@, z),
{
    let mut last: usize = 0;
    let mut i: usize = 0;
    while path[i] != 0
        invariant
            i < path@.len(),
            exists|z: int| i <= z < path@.len() && path@[z] == 0,
            forall|j: int| 0 <= j < i ==> path@[j] != 0,
            last == name_start_spec(path@, i as int),
        decreases path@.len() - i,
    {
        if path[i] == 0x2f {
            last = i + 1;
        }
        i = i + 1;
    }
    last
}

/// One page's part of loading a segment: read `n` bytes of the file at
/// offset `off` into the physical page at `pa`.
#[derive(Clone, Copy, Debug, PartialEq, Eq, Structural)]
pub struct LoadChunk {
    pub pa: u64,
    pub off: u64,
    pub n: u64,
}

/// The physical address that page `va` maps to in `pt`.
pub open spec fn page_pa(pt: &PageTable, va: u64) -> u64 {
    pte2pa_spec(pt@[va].0) as u64
}

/// Load a program segment into pagetable at virtual address va: the reads
/// to do, page by page, from file offset `offset` on.
/// va must be page-aligned and the pages from va to va+sz must already be
/// mapped, for user access, to nonzero physical addresses.
pub fn loadseg(pagetable: &PageTable, varange: Range<u64>, offset: u64) -> (r: Vec<LoadChunk>)
    requires
        pagetable.wf(),
        varange.start % PGSIZE == 0,
        varange.end <= MAXVA,
        offset + page_count(varange.start, varange.end) * PGSIZE <= u64::MAX,
        forall|a: u64| #[trigger]
            pages(varange.start, varange.end).contains(a) ==> pagetable@.contains_key(a)
                && pagetable@[a].0 & PTE_U != 0 && page_pa(pagetable, a) != 0,
    ensures
        r@.len() == page_count(varange.start, varange.end),
        forall|k: int|
            0 <= k < r@.len() ==> {
                let va = (varange.start + k * PGSIZE) as u64;
                &&& (#[trigger] r@[k]).pa == page_pa(pagetable, va)
                &&& r@[k].off == offset + k * PGSIZE
                &&& r@[k].n == (if varange.end - va < PGSIZE {
                    varange.end - va
                } else {
                    PGSIZE as int
                })
            },
{
    let start = varange.start;
    let end = varange.end;
    let mut r: Vec<LoadChunk> = Vec::new();
    let mut va = start;
    let mut off = offset;
    let ghost mut k: int = 0;
    while va < end
        invariant
            start == varange.start,
            end == varange.end,
            start % PGSIZE == 0,
            end <= MAXVA,
            va == start + k * PGSIZE,
            0 <= k,
            va < end ==> k < page_count(start, end),
            va >= end ==> k == page_count(start, end),
            off == offset + k * PGSIZE,
            offset + page_count(start, end) * PGSIZE <= u64::MAX,
            r@.len() == k,
            pagetable.wf(),
            forall|a: u64| #[trigger]
                pages(start, end).contains(a) ==> pagetable@.contains_key(a) && pagetable@[a].0
                    & PTE_U != 0 && page_pa(pagetable, a) != 0,
            forall|j: int|
                0 <= j < r@.len() ==> {
                    let v = (start + j * PGSIZE) as u64;
                    &&& (#[trigger] r@[j]).pa == page_pa(pagetable, v)
                    &&& r@[j].off == offset + j * PGSIZE
                    &&& r@[j].n == (if end - v < PGSIZE {
                        end - v
                    } else {
                        PGSIZE as int
                    })
                },
        decreases end + PGSIZE - va,
    {
        assert(va % PGSIZE == 0) by (nonlinear_arith)
            requires
                va == start + k * 4096,
                start % 4096 == 0,
        ;
        assert(pages(start, end).contains(va));
        let pa = pagetable.walkaddr(va);
        let n = if end - va < PGSIZE {
            end - va
        } else {
            PGSIZE
        };
        r.push(LoadChunk { pa, off, n });
        proof {
            k = k + 1;
            assert((k - 1) * 4096 + 4096 == k * 4096) by (nonlinear_arith);
            if va + PGSIZE < end {
                assert(k < page_count(start, end)) by (nonlinear_arith)
                    requires
                        start + k * 4096 < end,
                        start < end,
                        page_count(start, end) == (end - start + 4095) / 4096,
                ;
            } else {
                assert(k == page_count(start, end)) by (nonlinear_arith)
                    requires
                        start + k * 4096 >= end,
                        start + (k - 1) * 4096 < end,
                        start < end,
                        page_count(start, end) == (end - start + 4095) / 4096,
                ;
            }
        }
        off = off + PGSIZE;
        va = va + PGSIZE;
    }
    r
}

/// Each argument string pushed lands 16-byte aligned, at or below where
/// the previous one started minus its own length: the strings do not
/// overlap.
pub proof fn lemma_args_aligned(top: int, lens: Seq<u64>, k: nat)
    requires
        1 <= k <= lens.len(),
    ensures
        arg_sp(top, lens, k) % 16 == 0,
        arg_sp(top, lens, k) + lens[k - 1] <= arg_sp(top, lens, (k - 1) as nat),
{
    let x = arg_sp(top, lens, (k - 1) as nat) - lens[k - 1];
    assert(align16(x) % 16 == 0);
}

/// A program header of the ELF file, as exec reads it.
#[derive(Clone, Copy, Debug, PartialEq, Eq, Structural)]
pub struct ProgHeader {
    pub p_type: u32,
    pub p_flags: u32,
    pub p_offset: u64,
    pub p_vaddr: u64,
    pub p_filesz: u64,
    pub p_memsz: u64,
}

/// A loadable segment that `check_segment` refuses.
pub open spec fn seg_bad(h: ProgHeader) -> bool {
    h.p_type == PT_LOAD && (h.p_memsz < h.p_filesz || h.p_vaddr + h.p_memsz > u64::MAX
        || h.p_vaddr % PGSIZE != 0)
}

/// The loadable headers of `phs`, in order.
pub open spec fn loadable(phs: Seq<ProgHeader>) -> Seq<ProgHeader>
    decreases phs.len(),
{
    if phs.len() == 0 {
        Seq::empty()
    } else if phs.last().p_type == PT_LOAD {
        loadable(phs.drop_last()).push(phs.last())
    } else {
        loadable(phs.drop_last())
    }
}

/// The size of the loaded image: the highest end of a loadable segment,
/// 0 when there is none. (Memory grows to each segment's end, and never
/// shrinks.)
pub open spec fn load_end(phs: Seq<ProgHeader>) -> int
    decreases phs.len(),
{
    if phs.len() == 0 {
        0
    } else {
        let prev = load_end(phs.drop_last());
        let h = phs.last();
        if h.p_type == PT_LOAD && h.p_vaddr + h.p_memsz > prev {
            h.p_vaddr + h.p_memsz
        } else {
            prev
        }
    }
}

/// The top of the user stack, and the new size of user memory: two pages
/// at the next page boundary after the image, the first a guard page.
pub open spec fn stack_top(phs: Seq<ProgHeader>) -> int {
    round_up(load_end(phs)) + 2 * PGSIZE
}

/// Whether the ELF file is one exec loads: the magic number is right and
/// no loadable segment is refused.
pub open spec fn elf_ok(ident: Seq<u8>, phs: Seq<ProgHeader>) -> bool {
    &&& ident[0] == 0x7f && ident[1] == 0x45 && ident[2] == 0x4c && ident[3] == 0x46
    &&& forall|k: int| 0 <= k < phs.len() ==> !#[trigger] seg_bad(phs[k])
}

/// What exec does to the process, once the file is read: the segments to
/// load (in order, each grown into with `flags2perm` of its flags and read
/// with `loadseg`), the new size of user memory, the guard page, the user
/// stack, and where the program starts.
pub struct ExecPlan {
    /// the loadable program headers
    pub loads: Vec<ProgHeader>,
    /// size of user memory: image, guard page, stack page
    pub sz: u64,
    /// the inaccessible guard page below the stack
    pub guard: u64,
    /// the lowest address of the stack page
    pub stackbase: u64,
    /// the user stack pointer, at the argv[] array
    pub sp: u64,
    /// the program's entry point
    pub entry: u64,
    /// the number of arguments
    pub argc: u64,
    /// the addresses of the argument strings, ended by a zero
    pub ustack: UStack,
    /// the argv[] array as the bytes copied to the stack at `sp`
    pub argv: Vec<u8>,
}

/// Check the ELF file with identification `ident` and program headers
/// `phs`: Err(()) when the magic number is wrong or a loadable segment is
/// refused; else its loadable headers, in order, and the size of the image
/// they make.
pub fn exec_load(ident: &[u8], phs: &[ProgHeader]) -> (r: Result<(Vec<ProgHeader>, u64), ()>)
    requires
        ident@.len() >= 4,
    ensures
        r is Err <==> !elf_ok(ident@, phs@),
        r matches Ok((loads, end)) ==> loads@ == loadable(phs@) && end == load_end(phs@),
{
    // Check ELF header
    if !elf_magic_ok(ident) {
        return Err(());
    }
    // Load program into memory.
    let mut loads: Vec<ProgHeader> = Vec::new();
    let mut end: u64 = 0;
    let mut i: usize = 0;
    while i < phs.len()
        invariant
            i <= phs@.len(),
            end == load_end(phs@.take(i as int)),
            loads@ == loadable(phs@.take(i as int)),
            forall|k: int| 0 <= k < i ==> !#[trigger] seg_bad(phs@[k]),
        decreases phs@.len() - i,
    {
        let ph = phs[i];
        assert(phs@.take(i + 1).drop_last() =~= phs@.take(i as int));
        assert(phs@.take(i + 1).last() == ph);
        match check_segment(ph.p_type, ph.p_vaddr, ph.p_filesz, ph.p_memsz) {
            Err(_) => {
                assert(seg_bad(phs@[i as int]));
                return Err(());
            },
            Ok(false) => {},
            Ok(true) => {
                loads.push(ph);
                if ph.p_vaddr + ph.p_memsz > end {
                    end = ph.p_vaddr + ph.p_memsz;
                }
            },
        }
        i = i + 1;
    }
    assert(phs@.take(i as int) =~= phs@);
    Ok((loads, end))
}

/// Plan exec of an ELF file with identification `ident`, entry point
/// `entry` and program headers `phs`, with arguments of lengths `arg_lens`
/// (each with its nul). Err(()) when the magic number is wrong, a loadable
/// segment is refused, or the arguments do not fit the stack page. User
/// memory must stay below MAXVA (growing it beyond panics in the page-table
/// walk).
pub fn exec_plan(ident: &[u8], entry: u64, phs: &[ProgHeader], arg_lens: &[u64]) -> (r: Result<ExecPlan, ()>)
    requires
        ident@.len() >= 4,
        forall|k: int| 0 <= k < arg_lens@.len() ==> arg_lens@[k] <= PGSIZE,
        elf_ok(ident@, phs@) ==> stack_top(phs@) <= MAXVA,
    ensures
        r is Err <==> (!elf_ok(ident@, phs@) || args_overflow(
            stack_top(phs@),
            stack_top(phs@) - PGSIZE,
            arg_lens@,
        )),
        r matches Ok(p) ==> {
            &&& p.loads@ == loadable(phs@)
            &&& p.sz == stack_top(phs@)
            &&& p.guard == stack_top(phs@) - 2 * PGSIZE
            &&& p.stackbase == stack_top(phs@) - PGSIZE
            &&& p.entry == entry
            &&& p.argc == arg_lens@.len()
            &&& p.sp == argv_sp(stack_top(phs@), arg_lens@)
            &&& ustack_items(p.ustack) == Seq::new(
                arg_lens@.len(),
                |k: int| arg_sp(stack_top(phs@), arg_lens@, (k + 1) as nat) as u64,
            ).push(0)
            &&& p.argv@.len() == 8 * ustack_items(p.ustack).len()
            &&& forall|k: int|
                0 <= k < p.argv@.len() ==> #[trigger] p.argv@[k] == le_byte(
                    ustack_items(p.ustack)[k / 8],
                    k % 8,
                )
        },
{
    let (loads, end) = match exec_load(ident, phs) {
        Ok(x) => x,
        Err(_) => return Err(()),
    };
    // Allocate two pages at the next page boundary.
    // Make the first inaccessible as a stack guard.
    // Use the second as the user stack.
    let base = pgroundup(end);
    let sz = base + 2 * PGSIZE;
    match push_args(sz, arg_lens) {
        Err(_) => Err(()),
        Ok((sp, ustack)) => {
            let argv = ustack.bytes();
            Ok(ExecPlan {
                loads,
                sz,
                guard: base,
                stackbase: sz - PGSIZE,
                sp,
                entry,
                argc: arg_lens.len() as u64,
                ustack,
                argv,
            })
        },
    }
}

/// The top of the user stack for an image of `end` bytes:
/// `round_up(end) + 2 * PGSIZE`, if it fits in a u64.
pub fn stack_top_of(end: u64) -> (r: Option<u64>)
    ensures
        r matches Some(t) ==> t == round_up(end as int) + 2 * PGSIZE,
        r is None <==> round_up(end as int) + 2 * PGSIZE > u64::MAX,
{
    if end > 0xFFFF_FFFF_FFFF_D000 {
        proof {
            assert(round_up(end as int) >= end) by (nonlinear_arith)
                requires
                    round_up(end as int) == ((end + 4095) / 4096) * 4096,
            ;
            assert(round_up(end as int) % 4096 == 0) by (nonlinear_arith)
                requires
                    round_up(end as int) == ((end + 4095) / 4096) * 4096,
            ;
        }
        return None;
    }
    proof {
        assert(round_up(end as int) <= 0xFFFF_FFFF_FFFF_D000) by (nonlinear_arith)
            requires
                round_up(end as int) == ((end + 4095) / 4096) * 4096,
                end <= 0xFFFF_FFFF_FFFF_D000,
        ;
    }
    let base = pgroundup(end);
    Some(base + 2 * PGSIZE)
}

/// Commit to the new user image of `plan`: the program starts at its
/// entry point, with the stack pointer at the argv[] array, which is also
/// the second argument (a1) to the user's main(argc, argv). Returns argc,
/// the system call's result.
pub fn exec_commit(plan: &ExecPlan, tf: &mut Trapframe) -> (argc: u64)
    ensures
        *final(tf) == (Trapframe { a1: plan.sp, epc: plan.entry, sp: plan.sp, ..*old(tf) }),
        argc == plan.argc,
{
    tf.a1 = plan.sp;
    tf.epc = plan.entry;
    tf.sp = plan.sp;
    plan.argc
}

/// The name exec saves for debugging, from a nul-terminated path: the
/// bytes after its last '/', at most 15 of them, then a nul (as
/// safestrcpy copies into the 16-byte name).
pub fn proc_name(path: &[u8]) -> (r: Vec<u8>)
    requires
        exists|z: int| 0 <= z < path@.len() && path@[z] == 0,
    ensures
        exists|z: int|
            #![trigger path@[z]]
            0 <= z < path@.len() && path@[z] == 0 && (forall|j: int| 0 <= j < z ==> path@[j] != 0)
                && r@ == path@.subrange(
                name_start_spec(path@, z),
                if z - name_start_spec(path@, z) > 15 {
                    name_start_spec(path@, z) + 15
                } else {
                    z
                },
            ).push(0),
{
    let st = name_start(path);
    let ghost z = choose|z: int|
        0 <= z < path@.len() && path@[z] == 0 && (forall|j: int| 0 <= j < z ==> path@[j] != 0)
            && st == name_start_spec(path@, z);
    proof {
        lemma_name_start_le(path@, z);
    }
    let mut r: Vec<u8> = Vec::new();
    let mut k: usize = st;
    while k - st < 15 && path[k] != 0
        invariant
            st <= k <= z,
            st == name_start_spec(path@, z),
            0 <= z < path@.len(),
            path@[z] == 0,
            forall|j: int| 0 <= j < z ==> path@[j] != 0,
            k - st <= 15,
            r@ == path@.subrange(st as int, k as int),
        decreases z - k,
    {
        r.push(path[k]);
        k = k + 1;
        assert(r@ =~= path@.subrange(st as int, k as int));
    }
    r.push(0);
    assert(r@ =~= path@.subrange(
        st as int,
        if z - st > 15 {
            st + 15
        } else {
            z
        },
    ).push(0));
    r
}

/// The last component of a path starts within it.
proof fn lemma_name_start_le(s: Seq<u8>, i: int)
    requires
        i >= 0,
    ensures
        0 <= name_start_spec(s, i) <= i,
    decreases i,
{
    if i > 0 && s[i - 1] != 0x2f {
        lemma_name_start_le(s, i - 1);
    }
}

} // verus!
