use kernel::exec::{exec_commit, proc_name, stack_top_of, check_segment, elf_magic_ok, exec_load, exec_plan, flags2perm, loadseg, name_start, push_args, LoadChunk, ProgHeader, MAXARG, PT_LOAD};
use kernel::syscall::ints_bytes;
use kernel::proc::Trapframe;
use kernel::kalloc::Allocator;
use kernel::syscall::{argfd, fdalloc, sleep_over, syscall, Syscall, NOFILE};
use kernel::vm::{uvmcreate, PteFlags, PTE_R, PTE_U, PTE_W, PTE_X};

#[test]
fn flags2perm_maps_elf_flags() {
    assert_eq!(flags2perm(0).bits(), 0);
    assert_eq!(flags2perm(1).bits(), PTE_X);
    assert_eq!(flags2perm(2).bits(), PTE_W);
    assert_eq!(flags2perm(7).bits(), PTE_X | PTE_W);
}

#[test]
fn segment_checks() {
    assert_eq!(check_segment(2, 0x1234, 10, 5), Ok(false));
    assert_eq!(check_segment(PT_LOAD, 0x1000, 10, 20), Ok(true));
    assert_eq!(check_segment(PT_LOAD, 0x1000, 30, 20), Err(()));
    assert_eq!(check_segment(PT_LOAD, u64::MAX - 4095, 0, 8192), Err(()));
    assert_eq!(check_segment(PT_LOAD, 0x1010, 0, 16), Err(()));
}

#[test]
fn elf_magic() {
    assert!(elf_magic_ok(b"\x7fELF\x02"));
    assert!(!elf_magic_ok(b"\x7fELG"));
}

#[test]
fn program_name_after_last_slash() {
    assert_eq!(name_start(b"/bin/sh\0"), 5);
    assert_eq!(name_start(b"init\0"), 0);
    assert_eq!(name_start(b"a/\0b/c"), 2);
}

#[test]
fn args_pushed_aligned_below_top() {
    let (sp, st) = push_args(0x3000, &[8, 3]).unwrap();
    // "arg0" at 0x3000 - 8 = 0x2ff8, aligned to 0x2ff0; then 0x2ff0 - 3, aligned to 0x2fe0
    assert_eq!(st.to_vec(), vec![0x2ff0, 0x2fe0, 0]);
    // three pointers: 0x2fe0 - 24 = 0x2fc8, aligned to 0x2fc0
    assert_eq!(sp, 0x2fc0);
}

#[test]
fn too_many_args_fail() {
    let lens = vec![2u64; MAXARG];
    assert!(push_args(0x3000, &lens).is_err());
}

#[test]
fn args_that_overflow_the_page_fail() {
    assert!(push_args(0x3000, &[4096]).is_err());
    assert!(push_args(0x3000, &[4090]).is_err());
}

#[test]
fn loadseg_reads_page_by_page() {
    let mut pt = uvmcreate().unwrap();
    pt.insert(0x1000..0x4000, 0x8040_0000, PteFlags(PTE_R | PTE_U)).unwrap();
    let plan = loadseg(&pt, 0x1000..0x3800, 0x200);
    assert_eq!(
        plan,
        vec![
            LoadChunk { pa: 0x8040_0000, off: 0x200, n: 4096 },
            LoadChunk { pa: 0x8040_1000, off: 0x1200, n: 4096 },
            LoadChunk { pa: 0x8040_2000, off: 0x2200, n: 0x800 },
        ]
    );
}

#[test]
fn syscall_table() {
    assert!(syscall(1) == Some(Syscall::Fork));
    assert!(syscall(7) == Some(Syscall::Exec));
    assert!(syscall(21) == Some(Syscall::Close));
    assert!(syscall(0).is_none());
    assert!(syscall(22).is_none());
}

#[test]
fn argfd_checks_range_and_open() {
    let mut ofile = vec![None; NOFILE];
    ofile[3] = Some(42usize);
    assert_eq!(argfd(3, &ofile), Ok(42));
    assert_eq!(argfd(4, &ofile), Err(()));
    assert_eq!(argfd(-1, &ofile), Err(()));
    assert_eq!(argfd(16, &ofile), Err(()));
}

#[test]
fn fdalloc_takes_lowest_free() {
    let mut ofile = vec![Some(1usize); NOFILE];
    ofile[5] = None;
    ofile[9] = None;
    assert_eq!(fdalloc(&mut ofile, 77), Ok(5));
    assert_eq!(ofile[5], Some(77));
    assert_eq!(fdalloc(&mut ofile, 78), Ok(9));
    assert_eq!(fdalloc(&mut ofile, 79), Err(79));
}

#[test]
fn sleep_ticks() {
    assert!(!sleep_over(10, 8, 3));
    assert!(sleep_over(11, 8, 3));
    assert!(sleep_over(8, 8, -5));
}

#[test]
fn allocator_serves_page_sized_requests() {
    let a = Allocator;
    assert!(a.serves(4096, 4096));
    assert!(a.serves(1, 8));
    assert!(!a.serves(4097, 8));
    assert!(!a.serves(16, 8192));
}

fn ph(p_type: u32, p_vaddr: u64, p_filesz: u64, p_memsz: u64) -> ProgHeader {
    ProgHeader { p_type, p_flags: 5, p_offset: 0x1000, p_vaddr, p_filesz, p_memsz }
}

const IDENT: [u8; 16] = [0x7f, 0x45, 0x4c, 0x46, 2, 1, 1, 0, 0, 0, 0, 0, 0, 0, 0, 0];

#[test]
fn exec_plan_lays_out_image_and_stack() {
    let phs = [ph(PT_LOAD, 0, 0x1000, 0x1800), ph(4, 0x9000_0000, 0, 0), ph(PT_LOAD, 0x1000, 0x10, 0x20)];
    let p = exec_plan(&IDENT, 0x100, &phs, &[8, 3]).unwrap();
    assert_eq!(p.loads, vec![phs[0], phs[2]]);
    assert_eq!(p.sz, 0x4000);
    assert_eq!(p.guard, 0x2000);
    assert_eq!(p.stackbase, 0x3000);
    assert_eq!(p.entry, 0x100);
    assert_eq!(p.argc, 2);
    assert_eq!(p.ustack.to_vec(), vec![0x3ff0, 0x3fe0, 0]);
    assert_eq!(p.sp, 0x3fc0);
    assert_eq!(p.argv.len(), 24);
    assert_eq!(&p.argv[0..8], &[0xf0, 0x3f, 0, 0, 0, 0, 0, 0]);
    assert_eq!(&p.argv[8..16], &[0xe0, 0x3f, 0, 0, 0, 0, 0, 0]);
    assert_eq!(&p.argv[16..24], &[0; 8]);
}

#[test]
fn exec_plan_refuses_bad_files() {
    let good = [ph(PT_LOAD, 0, 0x10, 0x10)];
    let mut bad_magic = IDENT;
    bad_magic[1] = 0x46;
    assert!(exec_plan(&bad_magic, 0, &good, &[]).is_err());
    assert!(exec_plan(&IDENT, 0, &[ph(PT_LOAD, 0, 0x20, 0x10)], &[]).is_err());
    assert!(exec_plan(&IDENT, 0, &[ph(PT_LOAD, 0x10, 0, 0x10)], &[]).is_err());
    assert!(exec_plan(&IDENT, 0, &good, &[4090]).is_err());
    assert!(exec_plan(&IDENT, 0, &good, &[1; 32]).is_err());
    assert!(exec_plan(&IDENT, 0, &good, &[1; 31]).is_ok());
}

#[test]
fn exec_load_finds_image_end() {
    assert_eq!(exec_load(&IDENT, &[]).unwrap().1, 0);
    let phs = [ph(PT_LOAD, 0x2000, 0, 0x100), ph(PT_LOAD, 0, 0, 0x10)];
    let (loads, end) = exec_load(&IDENT, &phs).unwrap();
    assert_eq!(loads.len(), 2);
    assert_eq!(end, 0x2100);
}

#[test]
fn ints_as_user_bytes() {
    assert_eq!(ints_bytes(&[3, -1]), vec![3, 0, 0, 0, 0xff, 0xff, 0xff, 0xff]);
    assert_eq!(ints_bytes(&[0x0102_0304]), vec![4, 3, 2, 1]);
    assert!(ints_bytes(&[]).is_empty());
}

fn zero_tf() -> Trapframe {
    Trapframe {
        kernel_satp: 0, kernel_sp: 0, kernel_trap: 0, epc: 0, kernel_hartid: 0, ra: 0, sp: 0, gp: 0, tp: 0,
        t0: 0, t1: 0, t2: 0, s0: 0, s1: 0, a0: 0, a1: 0, a2: 0, a3: 0, a4: 0, a5: 0, a6: 0, a7: 0,
        s2: 0, s3: 0, s4: 0, s5: 0, s6: 0, s7: 0, s8: 0, s9: 0, s10: 0, s11: 0, t3: 0, t4: 0, t5: 0, t6: 7,
    }
}

#[test]
fn exec_commits_entry_and_stack() {
    let p = exec_plan(&IDENT, 0x100, &[ph(PT_LOAD, 0, 0x1000, 0x1800)], &[8, 3]).unwrap();
    let mut tf = zero_tf();
    assert_eq!(exec_commit(&p, &mut tf), 2);
    assert_eq!((tf.epc, tf.sp, tf.a1), (0x100, 0x3fc0, 0x3fc0));
    assert_eq!(tf.t6, 7);
}

#[test]
fn saved_name_is_truncated_last_component() {
    assert_eq!(proc_name(b"/bin/ls\0"), b"ls\0".to_vec());
    assert_eq!(proc_name(b"init\0xyz"), b"init\0".to_vec());
    assert_eq!(proc_name(b"/a/averyveryverylongname\0"), b"averyveryverylo\0".to_vec());
    assert_eq!(proc_name(b"dir/\0"), b"\0".to_vec());
}

#[test]
fn stack_top_after_image() {
    assert_eq!(stack_top_of(0x1800), Some(0x4000));
    assert_eq!(stack_top_of(0), Some(0x2000));
    assert_eq!(stack_top_of(0xFFFF_FFFF_FFFF_D000), Some(0xFFFF_FFFF_FFFF_F000));
    assert_eq!(stack_top_of(0xFFFF_FFFF_FFFF_D001), None);
}
