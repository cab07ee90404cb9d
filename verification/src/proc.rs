//! The process table: process states, sleeping and waking, kill, and the
//! hand-over of orphans to init.
//!
//! A slot's `chan` is the address it sleeps on; `parent` is the slot of the
//! parent process.
use vstd::prelude::*;
use crate::file::{File, FileKind};
use crate::rc::RcInner;
use crate::riscv::PGSIZE;
use crate::vm::{proc_mappings, ProcVm};
use crate::sysfile::{close_all, fds_counted, refs, released_files};

verus! {

/// maximum number of processes
pub const NPROC: usize = 64;

/// The state of a process slot.
#[derive(Clone, Copy, Debug, PartialEq, Eq, Structural)]
pub enum ProcState {
    Unused,
    Used,
    Sleeping,
    Runnable,
    Running,
    Zombie,
}

/// The scheduling fields of a process slot.
#[derive(Clone, Copy, Debug, PartialEq, Eq, Structural)]
pub struct Proc {
    pub state: ProcState,
    /// If non-zero, sleeping on chan
    pub chan: u64,
    /// If true, have been killed
    pub killed: bool,
    /// Exit status to be returned to parent's wait
    pub xstate: i32,
    /// Process ID
    pub pid: i32,
    /// Parent process
    pub parent: Option<usize>,
}

/// The process with `pid` that kill finds: the first slot holding it.
pub open spec fn first_with_pid(procs: Seq<Proc>, pid: i32, i: int) -> bool {
    &&& 0 <= i < procs.len()
    &&& procs[i].pid == pid
    &&& forall|j: int| 0 <= j < i ==> procs[j].pid != pid
}

/// A killed process: its flag is set and, when it slept, it runs again.
pub open spec fn killed_proc(p: Proc) -> Proc {
    Proc {
        killed: true,
        state: if p.state == ProcState::Sleeping {
            ProcState::Runnable
        } else {
            p.state
        },
        ..p
    }
}

/// A process woken from `chan` (unless it is the caller `me`).
pub open spec fn woken(p: Proc, i: int, chan: u64, me: Option<usize>) -> Proc {
    if me != Some(i as usize) && p.state == ProcState::Sleeping && p.chan == chan {
        Proc { state: ProcState::Runnable, ..p }
    } else {
        p
    }
}

/// A value that processes can sleep on, waiting for it to change.
pub struct Condvar<T>(pub T);

impl<T> Condvar<T> {
    pub fn new(t: T) -> (c: Self)
        ensures
            c.0 == t,
    {
        Condvar(t)
    }
}

/// Next process ID: return the current one and advance the counter.
pub fn allocpid(next_pid: &mut i32) -> (pid: i32)
    ensures
        pid == *old(next_pid),
        *final(next_pid) == old(next_pid).wrapping_add(1),
{
    let pid = *next_pid;
    *next_pid = next_pid.wrapping_add(1);
    pid
}

/// The pid counter after `k` calls of allocpid from `start`.
pub open spec fn pid_after(start: i32, k: nat) -> i32
    decreases k,
{
    if k == 0 {
        start
    } else {
        pid_after(start, (k - 1) as nat).wrapping_add(1)
    }
}

/// `x` wrapped into the range of an i32.
spec fn wrap_i32(x: int) -> int {
    (x + 0x8000_0000) % 0x1_0000_0000 - 0x8000_0000
}

proof fn lemma_pid_after(start: i32, k: nat)
    ensures
        pid_after(start, k) as int == wrap_i32(start + k),
    decreases k,
{
    if k > 0 {
        lemma_pid_after(start, (k - 1) as nat);
        let p = pid_after(start, (k - 1) as nat) as int;
        let x = start + k - 1 + 0x8000_0000;
        assert(x >= 0);
        assert(p + 0x8000_0000 == x % 0x1_0000_0000);
        if p == 0x7fff_ffff {
            assert((x + 1) % 0x1_0000_0000 == 0) by (nonlinear_arith)
                requires x % 0x1_0000_0000 == 0xffff_ffff, x >= 0;
        } else {
            assert((x + 1) % 0x1_0000_0000 == x % 0x1_0000_0000 + 1) by (nonlinear_arith)
                requires x % 0x1_0000_0000 < 0xffff_ffff, x >= 0;
        }
    }
}

/// allocpid hands out a different pid on each of fewer than 2^32 calls in
/// a row: the counter after `i` calls differs from the counter after `j`.
pub proof fn lemma_pids_distinct(start: i32, i: nat, j: nat)
    requires
        i < j < i + 0x1_0000_0000,
    ensures
        pid_after(start, i) != pid_after(start, j),
{
    lemma_pid_after(start, i);
    lemma_pid_after(start, j);
    crate::pipe::lemma_mod_distinct(start + i + 0x8000_0000, start + j + 0x8000_0000, 0x1_0000_0000);
}

/// Slot `i` is the first unused slot of the table.
pub open spec fn first_unused(procs: Seq<Proc>, i: int) -> bool {
    &&& 0 <= i < procs.len()
    &&& procs[i].state == ProcState::Unused
    &&& forall|j: int| 0 <= j < i ==> procs[j].state != ProcState::Unused
}

/// A table has at most one first unused slot.
pub proof fn lemma_first_unused_unique(procs: Seq<Proc>, i: int, j: int)
    requires
        first_unused(procs, i),
        first_unused(procs, j),
    ensures
        i == j,
{
    if i < j {
        assert(procs[i].state == ProcState::Unused);
    } else if j < i {
        assert(procs[j].state == ProcState::Unused);
    }
}

/// The pids in the table are ones the counter handed out in its first `n`
/// steps from `start`: every slot in use holds one, and no two slots in
/// use hold the same.
pub open spec fn pids_issued(procs: Seq<Proc>, start: i32, n: nat) -> bool {
    &&& forall|i: int|
        0 <= i < procs.len() && procs[i].state != ProcState::Unused ==> exists|k: nat|
            k < n && #[trigger] pid_after(start, k) == procs[i].pid
    &&& forall|i: int, j: int|
        0 <= i < j < procs.len() && procs[i].state != ProcState::Unused && procs[j].state
            != ProcState::Unused ==> procs[i].pid != procs[j].pid
}

/// A new process gets a pid that no process in the table holds: when the
/// table's pids were handed out by the counter's first `n` steps (fewer
/// than 2^32), the counter's next pid is held by no slot in use, and
/// giving it to an unused slot (or taking a slot and freeing it again)
/// keeps the table's pids handed out and distinct, now over `n + 1` steps.
pub proof fn lemma_fresh_pid(procs: Seq<Proc>, start: i32, n: nat, i: int)
    requires
        pids_issued(procs, start, n),
        n < 0x1_0000_0000,
        0 <= i < procs.len(),
        procs[i].state == ProcState::Unused,
    ensures
        forall|j: int|
            0 <= j < procs.len() && procs[j].state != ProcState::Unused ==> #[trigger] procs[j].pid
                != pid_after(start, n),
        pid_after(start, n).wrapping_add(1) == pid_after(start, n + 1),
        pids_issued(
            procs.update(i, Proc { pid: pid_after(start, n), state: ProcState::Used, ..procs[i] }),
            start,
            n + 1,
        ),
        pids_issued(procs.update(i, freed_proc()), start, n + 1),
{
    assert forall|j: int|
        0 <= j < procs.len() && procs[j].state != ProcState::Unused implies #[trigger] procs[j].pid
        != pid_after(start, n) by {
        let k = choose|k: nat| k < n && #[trigger] pid_after(start, k) == procs[j].pid;
        lemma_pids_distinct(start, k, n);
    }
    let q = procs.update(i, Proc { pid: pid_after(start, n), state: ProcState::Used, ..procs[i] });
    assert forall|j: int| 0 <= j < q.len() && q[j].state != ProcState::Unused implies exists|k: nat|
        k < n + 1 && #[trigger] pid_after(start, k) == q[j].pid by {
        if j == i {
            assert(pid_after(start, n) == q[j].pid);
        } else {
            let k = choose|k: nat| k < n && #[trigger] pid_after(start, k) == procs[j].pid;
            assert(pid_after(start, k) == q[j].pid);
        }
    }
    let f = procs.update(i, freed_proc());
    assert forall|j: int| 0 <= j < f.len() && f[j].state != ProcState::Unused implies exists|k: nat|
        k < n + 1 && #[trigger] pid_after(start, k) == f[j].pid by {
        let k = choose|k: nat| k < n && #[trigger] pid_after(start, k) == procs[j].pid;
        assert(pid_after(start, k) == f[j].pid);
    }
}

/// A slot freed again: what `Proc::drop` leaves.
pub open spec fn freed_proc() -> Proc {
    Proc { state: ProcState::Unused, chan: 0, killed: false, xstate: 0, pid: 0, parent: None }
}

/// Look in the process table for an UNUSED proc; if found, give it a new
/// pid, mark it USED, and give it its user page table: one with no user
/// memory, mapping the trampoline page (at physical address `trampoline`)
/// and its trapframe page. `trapframe` is the trapframe page the caller
/// allocated for it, None when no page could be had. When there is no
/// trapframe page, or the page table cannot be allocated, the slot is
/// freed again and None is returned (the pid stays used). Returns the slot
/// and its page table.
pub fn allocproc(procs: &mut Vec<Proc>, next_pid: &mut i32, trampoline: u64, trapframe: Option<u64>) -> (r:
    Option<(usize, ProcVm)>)
    requires
        trampoline + PGSIZE <= u64::MAX,
        trapframe matches Some(t) ==> t + PGSIZE <= u64::MAX,
    ensures
        final(procs)@.len() == old(procs)@.len(),
        !(exists|j: int| 0 <= j < old(procs)@.len() && old(procs)@[j].state == ProcState::Unused)
            ==> {
            &&& r is None
            &&& final(procs)@ == old(procs)@
            &&& *final(next_pid) == *old(next_pid)
        },
        (exists|j: int| 0 <= j < old(procs)@.len() && old(procs)@[j].state == ProcState::Unused)
            ==> *final(next_pid) == old(next_pid).wrapping_add(1),
        r matches Some((k, vm)) ==> {
            &&& first_unused(old(procs)@, k as int)
            &&& final(procs)@ == old(procs)@.update(
                k as int,
                Proc { pid: *old(next_pid), state: ProcState::Used, ..old(procs)@[k as int] },
            )
            &&& trapframe is Some
            &&& vm.0.pagetable.wf()
            &&& vm.0.pagetable@ == proc_mappings(trampoline, trapframe->Some_0)
            &&& vm.0.sz == 0
        },
        r is None && (exists|j: int| 0 <= j < old(procs)@.len() && old(procs)@[j].state
            == ProcState::Unused) ==> exists|i: int|
            #[trigger] first_unused(old(procs)@, i) && final(procs)@ == old(procs)@.update(
                i,
                freed_proc(),
            ),
        trapframe is None ==> r is None,
{
    let mut i: usize = 0;
    while i < procs.len()
        invariant
            i <= procs@.len(),
            procs@ == old(procs)@,
            *next_pid == *old(next_pid),
            forall|j: int| 0 <= j < i ==> procs@[j].state != ProcState::Unused,
            trampoline + PGSIZE <= u64::MAX,
            trapframe matches Some(t) ==> t + PGSIZE <= u64::MAX,
        decreases procs@.len() - i,
    {
        if procs[i].state == ProcState::Unused {
            assert(first_unused(old(procs)@, i as int));
            let pid = allocpid(next_pid);
            let mut p = procs[i];
            p.pid = pid;
            p.state = ProcState::Used;
            procs.set(i, p);
            // Allocate a trapframe page.
            let tf = match trapframe {
                Some(t) => t,
                None => {
                    p.drop();
                    procs.set(i, p);
                    return None;
                },
            };
            // An empty user page table.
            match ProcVm::new(trampoline, tf) {
                Ok(vm) => return Some((i, vm)),
                Err(_) => {
                    p.drop();
                    procs.set(i, p);
                    return None;
                },
            }
        }
        i = i + 1;
    }
    None
}

impl Proc {
    /// Reset a slot after its process is gone: what freeing a proc
    /// structure does to the fields the table keeps.
    pub fn drop(&mut self)
        ensures
            final(self).state == ProcState::Unused,
            final(self).pid == 0,
            final(self).parent is None,
            final(self).chan == 0,
            !final(self).killed,
            final(self).xstate == 0,
    {
        self.pid = 0;
        self.parent = None;
        self.chan = 0;
        self.killed = false;
        self.xstate = 0;
        self.state = ProcState::Unused;
    }
}

/// Kill the process with the given pid: the first slot with that pid gets
/// its killed flag, and wakes up if it sleeps. The victim won't exit until
/// it tries to return to user space.
/// Returns 0 when a slot had the pid, -1 when none had.
pub fn kill(procs: &mut Vec<Proc>, pid: i32) -> (r: i32)
    ensures
        r == 0 || r == -1,
        r == 0 <==> exists|i: int| 0 <= i < old(procs)@.len() && old(procs)@[i].pid == pid,
        r == 0 ==> exists|i: int|
            #![trigger first_with_pid(old(procs)@, pid, i)]
            first_with_pid(old(procs)@, pid, i) && final(procs)@ == old(procs)@.update(
                i,
                killed_proc(old(procs)@[i]),
            ),
        r == -1 ==> final(procs)@ == old(procs)@,
{
    let mut i: usize = 0;
    while i < procs.len()
        invariant
            i <= procs@.len(),
            procs@ == old(procs)@,
            forall|j: int| 0 <= j < i ==> procs@[j].pid != pid,
        decreases procs@.len() - i,
    {
        if procs[i].pid == pid {
            let mut p = procs[i];
            p.killed = true;
            if p.state == ProcState::Sleeping {
                // Wake process from sleep().
                p.state = ProcState::Runnable;
            }
            procs.set(i, p);
            assert(first_with_pid(old(procs)@, pid, i as int));
            assert(procs@ =~= old(procs)@.update(i as int, killed_proc(old(procs)@[i as int])));
            return 0;
        }
        i = i + 1;
    }
    -1
}

/// Atomically give up the lock and sleep on chan: the caller's slot goes to
/// sleep on `chan`.
pub fn sleep(p: &mut Proc, chan: u64)
    ensures
        *final(p) == (Proc { chan: chan, state: ProcState::Sleeping, ..*old(p) }),
{
    p.chan = chan;
    p.state = ProcState::Sleeping;
}

/// Wake up all processes sleeping on chan, except the caller's own slot
/// `me`.
pub fn notify_all(procs: &mut Vec<Proc>, chan: u64, me: Option<usize>)
    ensures
        final(procs)@.len() == old(procs)@.len(),
        forall|i: int|
            0 <= i < old(procs)@.len() ==> #[trigger] final(procs)@[i] == woken(
                old(procs)@[i],
                i,
                chan,
                me,
            ),
{
    let mut i: usize = 0;
    while i < procs.len()
        invariant
            i <= procs@.len(),
            procs@.len() == old(procs)@.len(),
            forall|j: int| 0 <= j < i ==> #[trigger] procs@[j] == woken(old(procs)@[j], j, chan, me),
            forall|j: int| i <= j < procs@.len() ==> #[trigger] procs@[j] == old(procs)@[j],
        decreases procs@.len() - i,
    {
        let is_me = match me {
            Some(m) => m == i,
            None => false,
        };
        if !is_me {
            let mut p = procs[i];
            if p.state == ProcState::Sleeping && p.chan == chan {
                p.state = ProcState::Runnable;
            }
            procs.set(i, p);
        }
        i = i + 1;
    }
}

/// The end of fork, once the child in slot `np` has its copy of the
/// parent's memory and files: it gets `p` as its parent and becomes
/// runnable. Returns the child's pid, fork's result in the parent.
pub fn fork_finish(procs: &mut Vec<Proc>, np: usize, p: usize) -> (pid: i32)
    requires
        np < old(procs)@.len(),
    ensures
        pid == old(procs)@[np as int].pid,
        final(procs)@ == old(procs)@.update(
            np as int,
            Proc { parent: Some(p), state: ProcState::Runnable, ..old(procs)@[np as int] },
        ),
{
    let mut q = procs[np];
    q.parent = Some(p);
    q.state = ProcState::Runnable;
    procs.set(np, q);
    q.pid
}

/// Whether some slot of the table has `p` as its parent.
pub open spec fn has_child(procs: Seq<Proc>, p: usize) -> bool {
    exists|j: int| 0 <= j < procs.len() && procs[j].parent == Some(p)
}

/// The per-process data for the trap handling code: the user registers
/// saved on a trap, and what the trampoline needs to re-enter the kernel.
#[derive(Clone, Copy, Debug, PartialEq, Eq, Structural)]
pub struct Trapframe {
    /// kernel page table
    pub kernel_satp: u64,
    /// top of process's kernel stack
    pub kernel_sp: u64,
    /// usertrap()
    pub kernel_trap: u64,
    /// saved user program counter
    pub epc: u64,
    /// saved kernel tp
    pub kernel_hartid: u64,
    pub ra: u64,
    pub sp: u64,
    pub gp: u64,
    pub tp: u64,
    pub t0: u64,
    pub t1: u64,
    pub t2: u64,
    pub s0: u64,
    pub s1: u64,
    pub a0: u64,
    pub a1: u64,
    pub a2: u64,
    pub a3: u64,
    pub a4: u64,
    pub a5: u64,
    pub a6: u64,
    pub a7: u64,
    pub s2: u64,
    pub s3: u64,
    pub s4: u64,
    pub s5: u64,
    pub s6: u64,
    pub s7: u64,
    pub s8: u64,
    pub s9: u64,
    pub s10: u64,
    pub s11: u64,
    pub t3: u64,
    pub t4: u64,
    pub t5: u64,
    pub t6: u64,
}

/// What fork gives the child of a process with trapframe `tf`, user memory
/// of `sz` bytes and name `name`: a copy of each, except that the child's
/// trapframe returns 0 from fork.
pub fn fork_child(tf: &Trapframe, sz: u64, name: &[u8; 16]) -> (r: (Trapframe, u64, [u8; 16]))
    ensures
        r.0 == (Trapframe { a0: 0, ..*tf }),
        r.1 == sz,
        r.2 == *name,
{
    let mut child = *tf;
    // Cause fork to return 0 in the child.
    child.a0 = 0;
    (child, sz, *name)
}

/// Saved registers for kernel context switches.
#[derive(Clone, Copy, Debug, PartialEq, Eq, Structural)]
pub struct Context {
    pub ra: u64,
    pub sp: u64,
    // callee-saved
    pub s0: u64,
    pub s1: u64,
    pub s2: u64,
    pub s3: u64,
    pub s4: u64,
    pub s5: u64,
    pub s6: u64,
    pub s7: u64,
    pub s8: u64,
    pub s9: u64,
    pub s10: u64,
    pub s11: u64,
}

/// The context of a newly allocated process: zero, except that it starts
/// executing at `forkret` (which returns to user space) on the top of its
/// kernel stack at `kstack`.
pub fn new_context(forkret: u64, kstack: u64) -> (c: Context)
    requires
        kstack + PGSIZE <= u64::MAX,
    ensures
        c == (Context {
            ra: forkret,
            sp: (kstack + PGSIZE) as u64,
            s0: 0,
            s1: 0,
            s2: 0,
            s3: 0,
            s4: 0,
            s5: 0,
            s6: 0,
            s7: 0,
            s8: 0,
            s9: 0,
            s10: 0,
            s11: 0,
        }),
{
    Context {
        ra: forkret,
        sp: kstack + PGSIZE,
        s0: 0,
        s1: 0,
        s2: 0,
        s3: 0,
        s4: 0,
        s5: 0,
        s6: 0,
        s7: 0,
        s8: 0,
        s9: 0,
        s10: 0,
        s11: 0,
    }
}

/// Pass p's abandoned children to init: each slot whose parent is `p`
/// gets `initproc` as parent, and each such hand-over wakes up whatever
/// sleeps on `init_chan` (init waiting for children), except the caller.
pub fn reparent(procs: &mut Vec<Proc>, p: usize, initproc: usize, init_chan: u64, me: Option<usize>)
    ensures
        final(procs)@.len() == old(procs)@.len(),
        forall|i: int|
            0 <= i < old(procs)@.len() ==> (#[trigger] final(procs)@[i]).parent == (if old(
                procs,
            )@[i].parent == Some(p) {
                Some(initproc)
            } else {
                old(procs)@[i].parent
            }),
        forall|i: int|
            0 <= i < old(procs)@.len() ==> {
                let q = old(procs)@[i];
                let r = #[trigger] final(procs)@[i];
                &&& r.chan == q.chan
                &&& r.killed == q.killed
                &&& r.xstate == q.xstate
                &&& r.pid == q.pid
                &&& (r.state == q.state || (r.state == ProcState::Runnable && q.state
                    == ProcState::Sleeping && q.chan == init_chan))
            },
        has_child(old(procs)@, p) ==> forall|i: int|
            0 <= i < old(procs)@.len() ==> #[trigger] final(procs)@[i].state == woken(
                old(procs)@[i],
                i,
                init_chan,
                me,
            ).state,
        !has_child(old(procs)@, p) ==> final(procs)@ == old(procs)@,
{
    let ghost start = procs@;
    let ghost mut found = false;
    let mut i: usize = 0;
    while i < procs.len()
        invariant
            i <= procs@.len(),
            procs@.len() == start.len(),
            start == old(procs)@,
            found == (exists|j: int| 0 <= j < i && start[j].parent == Some(p)),
            forall|j: int|
                0 <= j < i ==> (#[trigger] procs@[j]).parent == (if start[j].parent == Some(p) {
                    Some(initproc)
                } else {
                    start[j].parent
                }),
            forall|j: int| i <= j < procs@.len() ==> (#[trigger] procs@[j]).parent == start[j].parent,
            forall|j: int|
                0 <= j < procs@.len() ==> {
                    let q = start[j];
                    let r = #[trigger] procs@[j];
                    &&& r.chan == q.chan
                    &&& r.killed == q.killed
                    &&& r.xstate == q.xstate
                    &&& r.pid == q.pid
                    &&& (r.state == q.state || (r.state == ProcState::Runnable && q.state
                        == ProcState::Sleeping && q.chan == init_chan))
                },
            found ==> forall|j: int|
                0 <= j < procs@.len() ==> #[trigger] procs@[j].state == woken(start[j], j, init_chan, me).state,
            !found ==> forall|j: int| 0 <= j < procs@.len() ==> #[trigger] procs@[j].state == start[j].state,
        decreases procs@.len() - i,
    {
        if procs[i].parent == Some(p) {
            let mut q = procs[i];
            q.parent = Some(initproc);
            procs.set(i, q);
            let ghost before = procs@;
            notify_all(procs, init_chan, me);
            proof {
                assert forall|j: int| 0 <= j < procs@.len() implies #[trigger] procs@[j].state
                    == woken(start[j], j, init_chan, me).state by {
                    assert(procs@[j] == woken(before[j], j, init_chan, me));
                    assert(before[j].chan == start[j].chan);
                }
                found = true;
            }
        }
        i = i + 1;
    }
    proof {
        if !has_child(start, p) {
            assert forall|j: int| 0 <= j < procs@.len() implies procs@[j] == start[j] by {
                assert(start[j].parent != Some(p));
            }
            assert(procs@ =~= start);
        }
    }
}

/// The parent a slot has once the children of `p` went to `initproc`.
pub open spec fn reparented(q: Proc, p: usize, initproc: usize) -> Option<usize> {
    if q.parent == Some(p) {
        Some(initproc)
    } else {
        q.parent
    }
}

/// The state of slot `i` after `p` exits: woken on `init_chan` when `p` had
/// children to hand over, then on `parent_chan`.
pub open spec fn exit_state(procs: Seq<Proc>, i: int, p: usize, init_chan: u64, parent_chan: u64) -> ProcState {
    let q = procs[i];
    let q1 = if has_child(procs, p) {
        woken(q, i, init_chan, Some(p))
    } else {
        q
    };
    woken(q1, i, parent_chan, Some(p)).state
}

/// The process table's part of exit for the process in slot `p`: its
/// children go to init (waking init, which sleeps on `init_chan`), its
/// parent (sleeping in wait on `parent_chan`) is woken, and it becomes a
/// zombie with exit status `status`. It stays one until its parent calls
/// wait. The init process cannot exit.
///
/// First all of its open files are closed (`ofile`, its descriptors, into
/// the file table `ftable`) and its current directory `cwd` is given up.
/// Returns the files whose last reference went, to be released, and the
/// directory inode whose reference is to be dropped.
pub fn exit(
    procs: &mut Vec<Proc>,
    p: usize,
    status: i32,
    initproc: usize,
    init_chan: u64,
    parent_chan: u64,
    ofile: &mut Vec<Option<usize>>,
    ftable: &mut Vec<RcInner<File>>,
    cwd: &mut Option<usize>,
) -> (r: (Vec<File>, Option<usize>))
    requires
        p < old(procs)@.len(),
        p != initproc,
        fds_counted(old(ofile)@, old(ftable)@),
    ensures
        final(ofile)@.len() == old(ofile)@.len(),
        forall|i: int| 0 <= i < old(ofile)@.len() ==> #[trigger] final(ofile)@[i] is None,
        final(ftable)@.len() == old(ftable)@.len(),
        forall|f: usize|
            f < old(ftable)@.len() ==> {
                &&& #[trigger] final(ftable)@[f as int].count() == old(ftable)@[f as int].count()
                    - refs(old(ofile)@, f)
                &&& if refs(old(ofile)@, f) > 0 && old(ftable)@[f as int].count() == refs(
                    old(ofile)@,
                    f,
                ) {
                    final(ftable)@[f as int].value().kind == FileKind::Empty
                } else {
                    final(ftable)@[f as int].value() == old(ftable)@[f as int].value()
                }
            },
        r.0@ == released_files(old(ofile)@, old(ftable)@),
        r.1 == *old(cwd),
        *final(cwd) is None,
        final(procs)@.len() == old(procs)@.len(),
        final(procs)@[p as int] == (Proc {
            state: ProcState::Zombie,
            xstate: status,
            parent: reparented(old(procs)@[p as int], p, initproc),
            ..old(procs)@[p as int]
        }),
        forall|i: int|
            0 <= i < old(procs)@.len() && i != p ==> #[trigger] final(procs)@[i] == (Proc {
                parent: reparented(old(procs)@[i], p, initproc),
                state: exit_state(old(procs)@, i, p, init_chan, parent_chan),
                ..old(procs)@[i]
            }),
{
    // Close all open files.
    let released = close_all(ofile, ftable);
    let dir = *cwd;
    *cwd = None;
    let ghost start = procs@;
    // Give any children to init.
    reparent(procs, p, initproc, init_chan, Some(p));
    let ghost mid = procs@;
    // Parent might be sleeping in wait().
    notify_all(procs, parent_chan, Some(p));
    let mut q = procs[p];
    q.xstate = status;
    q.state = ProcState::Zombie;
    procs.set(p, q);
    proof {
        assert forall|i: int| 0 <= i < start.len() && i != p implies #[trigger] procs@[i] == (Proc {
            parent: reparented(start[i], p, initproc),
            state: exit_state(start, i, p, init_chan, parent_chan),
            ..start[i]
        }) by {
            assert(procs@[i] == woken(mid[i], i, parent_chan, Some(p)));
            if has_child(start, p) {
                assert(mid[i].state == woken(start[i], i, init_chan, Some(p)).state);
            } else {
                assert(mid[i] == start[i]);
            }
        }
        assert(procs@[p as int].parent == mid[p as int].parent);
        if !has_child(start, p) {
            assert(mid[p as int] == start[p as int]);
        }
    }
    (released, dir)
}

/// What a scan of the table in wait() found.
pub enum WaitScan {
    /// A child that exited: its slot and pid.
    Zombie(usize, i32),
    /// No children, or the caller was killed: wait fails.
    Fail,
    /// Children that are still running: sleep until one exits.
    Sleep,
}

/// Scan the table for exited children of `p`: the first zombie child is
/// reaped; with no child at all, or when the caller is killed, wait fails.
pub fn wait_scan(procs: &Vec<Proc>, p: usize, killed: bool) -> (r: WaitScan)
    ensures
        match r {
            WaitScan::Zombie(i, pid) => {
                &&& i < procs@.len()
                &&& procs@[i as int].parent == Some(p)
                &&& procs@[i as int].state == ProcState::Zombie
                &&& pid == procs@[i as int].pid
                &&& forall|j: int|
                    0 <= j < i ==> !(procs@[j].parent == Some(p) && procs@[j].state
                        == ProcState::Zombie)
            },
            WaitScan::Fail => {
                &&& forall|j: int|
                    0 <= j < procs@.len() ==> !(procs@[j].parent == Some(p) && procs@[j].state
                        == ProcState::Zombie)
                &&& (killed || forall|j: int| 0 <= j < procs@.len() ==> procs@[j].parent != Some(p))
            },
            WaitScan::Sleep => {
                &&& !killed
                &&& exists|j: int| 0 <= j < procs@.len() && procs@[j].parent == Some(p)
                &&& forall|j: int|
                    0 <= j < procs@.len() ==> !(procs@[j].parent == Some(p) && procs@[j].state
                        == ProcState::Zombie)
            },
        },
{
    let mut havekids = false;
    let mut i: usize = 0;
    while i < procs.len()
        invariant
            i <= procs@.len(),
            havekids == (exists|j: int| 0 <= j < i && procs@[j].parent == Some(p)),
            forall|j: int|
                0 <= j < i ==> !(procs@[j].parent == Some(p) && procs@[j].state
                    == ProcState::Zombie),
        decreases procs@.len() - i,
    {
        if procs[i].parent == Some(p) {
            havekids = true;
            if procs[i].state == ProcState::Zombie {
                // Found one.
                return WaitScan::Zombie(i, procs[i].pid);
            }
        }
        i = i + 1;
    }
    // No point waiting if we don't have any children.
    if !havekids || killed {
        return WaitScan::Fail;
    }
    WaitScan::Sleep
}

/// How growproc changes a process of `sz` bytes by `n` bytes.
#[derive(Clone, Copy, Debug, PartialEq, Eq, Structural)]
pub enum Grow {
    /// grow the user memory to this size
    Extend(u64),
    /// shrink it to this size
    Shrink(u64),
    /// leave it
    Keep,
}

/// Grow or shrink user memory by n bytes: the new size to grow or shrink
/// to. Shrinking below zero wraps around, as the address arithmetic does.
pub fn growproc(sz: u64, n: i32) -> (g: Grow)
    requires
        n != i32::MIN,
        n > 0 ==> sz + n <= u64::MAX,
    ensures
        g == (if n > 0 {
            Grow::Extend((sz + n) as u64)
        } else if n < 0 {
            Grow::Shrink(sz.wrapping_sub((-n) as u64))
        } else {
            Grow::Keep
        }),
{
    if n > 0 {
        Grow::Extend(sz + n as u64)
    } else if n < 0 {
        Grow::Shrink(sz.wrapping_sub((-n) as u64))
    } else {
        Grow::Keep
    }
}

/// A process that goes to sleep on `chan` is made runnable by the next
/// wakeup on `chan` from any other process, and by no wakeup on another
/// channel.
pub proof fn lemma_sleep_then_notify(p: Proc, i: int, chan: u64, other: u64, me: Option<usize>)
    requires
        me != Some(i as usize),
        other != chan,
    ensures
        woken(Proc { chan: chan, state: ProcState::Sleeping, ..p }, i, chan, me).state
            == ProcState::Runnable,
        woken(Proc { chan: chan, state: ProcState::Sleeping, ..p }, i, other, me).state
            == ProcState::Sleeping,
{
}

/// The end of growproc, once the change `g` was made: `done` is the size
/// of user memory that growing or shrinking left (None when growing failed,
/// and the memory is as it was). The process's size `sz` becomes it.
/// Returns 0, or -1 when growing failed.
pub fn growproc_finish(sz: &mut u64, g: Grow, done: Option<u64>) -> (r: i32)
    requires
        g is Shrink ==> done is Some,
    ensures
        g is Keep ==> r == 0 && *final(sz) == *old(sz),
        !(g is Keep) ==> match done {
            Some(s) => r == 0 && *final(sz) == s,
            None => r == -1 && *final(sz) == *old(sz),
        },
{
    match g {
        Grow::Keep => 0,
        _ => match done {
            Some(s) => {
                *sz = s;
                0
            },
            None => -1,
        },
    }
}

/// The end of wait, once the scan found zombie child `i` with pid `pid`
/// and its exit status was copied out to the caller (`copied` tells
/// whether that copy succeeded): a failed copy makes wait fail, with the
/// child left a zombie; otherwise the child's slot is freed and wait
/// returns its pid.
pub fn wait_reap(procs: &mut Vec<Proc>, i: usize, pid: i32, copied: bool) -> (r: i32)
    requires
        i < old(procs)@.len(),
    ensures
        !copied ==> r == -1 && final(procs)@ == old(procs)@,
        copied ==> r == pid && final(procs)@ == old(procs)@.update(i as int, freed_proc()),
{
    if !copied {
        return -1;
    }
    let mut q = procs[i];
    q.drop();
    procs.set(i, q);
    assert(procs@ =~= old(procs)@.update(i as int, freed_proc()));
    pid
}

} // verus!
