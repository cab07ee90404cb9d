use kernel::proc::{new_context, Context, fork_child, Trapframe, allocpid, allocproc, wait_reap, exit, fork_finish, growproc, growproc_finish, kill, notify_all, reparent, sleep, wait_scan, Condvar, Grow, Proc, ProcState, WaitScan};
use kernel::trap::clockintr;
use kernel::file::{File, FileKind};
use kernel::rc::RcInner;
use kernel::memlayout::{TRAMPOLINE, TRAPFRAME};

fn slot(state: ProcState, pid: i32, parent: Option<usize>) -> Proc {
    Proc { state, chan: 0, killed: false, xstate: 0, pid, parent }
}

#[test]
fn allocpid_counts_up_and_wraps() {
    let mut next = 1;
    assert_eq!(allocpid(&mut next), 1);
    assert_eq!(allocpid(&mut next), 2);
    assert_eq!(next, 3);
    let mut last = i32::MAX;
    assert_eq!(allocpid(&mut last), i32::MAX);
    assert_eq!(last, i32::MIN);
}

#[test]
fn allocproc_takes_first_unused_slot() {
    let mut procs = vec![
        slot(ProcState::Runnable, 1, None),
        slot(ProcState::Unused, 0, None),
        slot(ProcState::Unused, 0, None),
    ];
    let mut next = 7;
    let (i, vm) = allocproc(&mut procs, &mut next, 0x8000_1000, Some(0x8700_0000)).unwrap();
    assert_eq!(i, 1);
    assert_eq!(vm.0.sz, 0);
    assert_eq!(vm.0.pagetable.walkaddr(TRAMPOLINE), 0);
    assert_eq!(vm.0.pagetable.lookup(TRAPFRAME).map(|p| p.pa()), Some(0x8700_0000));
    assert_eq!(vm.0.pagetable.lookup(TRAMPOLINE).map(|p| p.pa()), Some(0x8000_1000));
    assert!(vm.0.pagetable.lookup(0).is_none());
    assert_eq!(procs[1].pid, 7);
    assert!(procs[1].state == ProcState::Used);
    assert!(procs[2].state == ProcState::Unused);
    assert_eq!(next, 8);
}

#[test]
fn allocproc_fails_on_full_table() {
    let mut procs = vec![slot(ProcState::Running, 1, None)];
    let mut next = 2;
    assert!(allocproc(&mut procs, &mut next, 0x8000_1000, Some(0x8700_0000)).is_none());
    assert_eq!(next, 2);
}

#[test]
fn kill_marks_and_wakes_sleeper() {
    let mut procs = vec![slot(ProcState::Running, 1, None), slot(ProcState::Sleeping, 2, None)];
    procs[1].chan = 99;
    assert_eq!(kill(&mut procs, 2), 0);
    assert!(procs[1].killed);
    assert!(procs[1].state == ProcState::Runnable);
    assert!(!procs[0].killed);
}

#[test]
fn kill_unknown_pid_fails() {
    let mut procs = vec![slot(ProcState::Running, 1, None)];
    assert_eq!(kill(&mut procs, 42), -1);
    assert!(!procs[0].killed);
}

#[test]
fn kill_running_process_keeps_it_running() {
    let mut procs = vec![slot(ProcState::Running, 5, None)];
    assert_eq!(kill(&mut procs, 5), 0);
    assert!(procs[0].killed);
    assert!(procs[0].state == ProcState::Running);
}

#[test]
fn sleep_then_notify_wakes_only_that_channel() {
    let mut procs = vec![slot(ProcState::Running, 1, None), slot(ProcState::Running, 2, None), slot(ProcState::Running, 3, None)];
    sleep(&mut procs[1], 100);
    sleep(&mut procs[2], 200);
    assert!(procs[1].state == ProcState::Sleeping);
    notify_all(&mut procs, 100, Some(0));
    assert!(procs[1].state == ProcState::Runnable);
    assert!(procs[2].state == ProcState::Sleeping);
}

#[test]
fn notify_skips_the_caller() {
    let mut procs = vec![slot(ProcState::Running, 1, None)];
    sleep(&mut procs[0], 5);
    notify_all(&mut procs, 5, Some(0));
    assert!(procs[0].state == ProcState::Sleeping);
}

#[test]
fn reparent_gives_children_to_init_and_wakes_it() {
    let mut procs = vec![
        slot(ProcState::Sleeping, 1, None),
        slot(ProcState::Running, 2, Some(0)),
        slot(ProcState::Runnable, 3, Some(1)),
        slot(ProcState::Runnable, 4, Some(1)),
    ];
    procs[0].chan = 1000;
    reparent(&mut procs, 1, 0, 1000, Some(1));
    assert_eq!(procs[2].parent, Some(0));
    assert_eq!(procs[3].parent, Some(0));
    assert_eq!(procs[1].parent, Some(0));
    assert!(procs[0].state == ProcState::Runnable);
}

#[test]
fn reparent_without_children_wakes_nobody() {
    let mut procs = vec![slot(ProcState::Sleeping, 1, None), slot(ProcState::Running, 2, Some(0))];
    procs[0].chan = 1000;
    reparent(&mut procs, 1, 0, 1000, Some(1));
    assert!(procs[0].state == ProcState::Sleeping);
}

#[test]
fn wait_scan_finds_zombie_child() {
    let procs = vec![
        slot(ProcState::Running, 1, None),
        slot(ProcState::Running, 2, Some(0)),
        slot(ProcState::Zombie, 3, Some(0)),
    ];
    assert!(matches!(wait_scan(&procs, 0, false), WaitScan::Zombie(2, 3)));
}

#[test]
fn wait_scan_sleeps_or_fails() {
    let procs = vec![slot(ProcState::Running, 1, None), slot(ProcState::Running, 2, Some(0))];
    assert!(matches!(wait_scan(&procs, 0, false), WaitScan::Sleep));
    assert!(matches!(wait_scan(&procs, 0, true), WaitScan::Fail));
    assert!(matches!(wait_scan(&procs, 1, false), WaitScan::Fail));
}

#[test]
fn drop_resets_slot() {
    let mut p = slot(ProcState::Zombie, 9, Some(3));
    p.killed = true;
    p.xstate = 4;
    p.chan = 8;
    p.drop();
    assert!(p.state == ProcState::Unused);
    assert_eq!((p.pid, p.parent, p.chan, p.killed, p.xstate), (0, None, 0, false, 0));
}

#[test]
fn growproc_decisions() {
    assert!(growproc(4096, 100) == Grow::Extend(4196));
    assert!(growproc(4096, -96) == Grow::Shrink(4000));
    assert!(growproc(4096, 0) == Grow::Keep);
    assert!(growproc(10, -20) == Grow::Shrink(10u64.wrapping_sub(20)));
}

#[test]
fn condvar_holds_value() {
    let c = Condvar::new(5u32);
    assert_eq!(c.0, 5);
}

#[test]
fn clock_tick_wakes_sleepers_on_ticks() {
    let mut ticks = 41;
    let mut procs = vec![slot(ProcState::Running, 1, None), slot(ProcState::Running, 2, None)];
    sleep(&mut procs[1], 7);
    clockintr(&mut ticks, &mut procs, 7, None);
    assert_eq!(ticks, 42);
    assert!(procs[1].state == ProcState::Runnable);
    assert!(procs[0].state == ProcState::Running);
}

#[test]
fn exit_hands_children_to_init_and_waits_for_parent() {
    // slot 0: init, sleeping in wait on channel 100; slot 1: the parent,
    // sleeping in wait on channel 200; slot 2: the exiting process; slot 3:
    // its child.
    let mut procs = vec![
        Proc { state: ProcState::Sleeping, chan: 100, ..slot(ProcState::Sleeping, 1, None) },
        Proc { state: ProcState::Sleeping, chan: 200, ..slot(ProcState::Sleeping, 2, Some(0)) },
        slot(ProcState::Running, 3, Some(1)),
        slot(ProcState::Runnable, 4, Some(2)),
    ];
    assert!(matches!(wait_scan(&procs, 1, false), WaitScan::Sleep));
    let mut ftable: Vec<RcInner<File>> = (0..2).map(|_| RcInner::new(File::none())).collect();
    RcInner::inc_strong(&mut ftable[1]);
    let pipe_end = File { kind: FileKind::Pipe(3), readable: true, writable: false };
    *ftable[1].deref_mut() = pipe_end;
    let mut ofile = vec![None; 16];
    ofile[2] = Some(1);
    let mut cwd = Some(9);
    let (released, dir) = exit(&mut procs, 2, 7, 0, 100, 200, &mut ofile, &mut ftable, &mut cwd);
    assert!(released == vec![pipe_end]);
    assert_eq!(dir, Some(9));
    assert_eq!(cwd, None);
    assert!(ofile.iter().all(|o| o.is_none()));
    assert_eq!(RcInner::strong(&ftable[1]), 0);
    assert!(procs[2].state == ProcState::Zombie);
    assert_eq!(procs[2].xstate, 7);
    assert_eq!(procs[3].parent, Some(0));
    assert!(procs[0].state == ProcState::Runnable);
    assert!(procs[1].state == ProcState::Runnable);
    assert!(matches!(wait_scan(&procs, 1, false), WaitScan::Zombie(2, 3)));
}

#[test]
fn exit_without_children_wakes_only_parent() {
    let mut procs = vec![
        Proc { state: ProcState::Sleeping, chan: 100, ..slot(ProcState::Sleeping, 1, None) },
        slot(ProcState::Running, 5, Some(0)),
    ];
    let mut ftable: Vec<RcInner<File>> = Vec::new();
    let mut ofile = vec![None; 16];
    let mut cwd = None;
    let (released, dir) = exit(&mut procs, 1, -1, 0, 100, 300, &mut ofile, &mut ftable, &mut cwd);
    assert!(released.is_empty());
    assert_eq!(dir, None);
    assert!(procs[0].state == ProcState::Sleeping);
    assert!(procs[1].state == ProcState::Zombie);
    assert_eq!(procs[1].xstate, -1);
}

#[test]
fn fork_child_becomes_runnable_child_of_parent() {
    let mut procs = vec![slot(ProcState::Running, 1, None), slot(ProcState::Unused, 0, None)];
    let mut next = 2;
    let (np, _) = allocproc(&mut procs, &mut next, 0x8000_1000, Some(0x8700_0000)).unwrap();
    assert_eq!(fork_finish(&mut procs, np, 0), 2);
    assert_eq!(procs[1].parent, Some(0));
    assert!(procs[1].state == ProcState::Runnable);
    assert!(matches!(wait_scan(&procs, 0, false), WaitScan::Sleep));
}

#[test]
fn allocproc_without_trapframe_frees_slot() {
    let mut procs = vec![slot(ProcState::Running, 1, None), slot(ProcState::Unused, 0, None)];
    let mut next = 5;
    assert!(allocproc(&mut procs, &mut next, 0x8000_1000, None).is_none());
    assert!(procs[1].state == ProcState::Unused);
    assert_eq!(procs[1].pid, 0);
    assert_eq!(next, 6);
}

#[test]
fn growproc_result_and_size() {
    let mut sz = 0x3000;
    assert_eq!(growproc_finish(&mut sz, Grow::Extend(0x4000), Some(0x4000)), 0);
    assert_eq!(sz, 0x4000);
    assert_eq!(growproc_finish(&mut sz, Grow::Extend(0x9000), None), -1);
    assert_eq!(sz, 0x4000);
    assert_eq!(growproc_finish(&mut sz, Grow::Shrink(0x1000), Some(0x1000)), 0);
    assert_eq!(sz, 0x1000);
    assert_eq!(growproc_finish(&mut sz, Grow::Keep, None), 0);
    assert_eq!(sz, 0x1000);
}

#[test]
fn wait_reaps_zombie_after_copy() {
    let mut procs = vec![slot(ProcState::Running, 1, None), slot(ProcState::Zombie, 4, Some(0))];
    assert_eq!(wait_reap(&mut procs, 1, 4, false), -1);
    assert!(procs[1].state == ProcState::Zombie);
    assert_eq!(wait_reap(&mut procs, 1, 4, true), 4);
    assert!(procs[1].state == ProcState::Unused);
    assert_eq!(procs[1].pid, 0);
    assert_eq!(procs[1].parent, None);
}

#[test]
fn new_processes_get_distinct_pids() {
    let mut procs = vec![slot(ProcState::Running, 1, None), slot(ProcState::Unused, 0, None), slot(ProcState::Unused, 0, None)];
    let mut next = 2;
    let (a, _) = allocproc(&mut procs, &mut next, 0x8000_1000, Some(0x8700_0000)).unwrap();
    let (b, _) = allocproc(&mut procs, &mut next, 0x8000_1000, Some(0x8701_0000)).unwrap();
    assert_ne!(a, b);
    let pids: Vec<i32> = procs.iter().map(|p| p.pid).collect();
    assert_eq!(pids, vec![1, 2, 3]);
}

#[test]
fn fork_child_copies_with_zero_result() {
    let tf = Trapframe {
        kernel_satp: 1, kernel_sp: 2, kernel_trap: 3, epc: 0x40, kernel_hartid: 0, ra: 5, sp: 0x3fc0, gp: 0, tp: 0,
        t0: 0, t1: 0, t2: 0, s0: 0, s1: 0, a0: 17, a1: 9, a2: 0, a3: 0, a4: 0, a5: 0, a6: 0, a7: 1,
        s2: 0, s3: 0, s4: 0, s5: 0, s6: 0, s7: 0, s8: 0, s9: 0, s10: 0, s11: 0, t3: 0, t4: 0, t5: 0, t6: 0,
    };
    let name = *b"sh\0\0\0\0\0\0\0\0\0\0\0\0\0\0";
    let (child, sz, cname) = fork_child(&tf, 0x5000, &name);
    assert_eq!(child, Trapframe { a0: 0, ..tf });
    assert_eq!(sz, 0x5000);
    assert_eq!(cname, name);
}

#[test]
fn new_process_context_starts_at_forkret() {
    let c = new_context(0x8000_2000, 0x3F_FFFF_B000);
    assert_eq!(c.ra, 0x8000_2000);
    assert_eq!(c.sp, 0x3F_FFFF_C000);
    assert_eq!(Context { ra: 0, sp: 0, ..c }, Context { ra: 0, sp: 0, s0: 0, s1: 0, s2: 0, s3: 0, s4: 0, s5: 0, s6: 0, s7: 0, s8: 0, s9: 0, s10: 0, s11: 0 });
}
