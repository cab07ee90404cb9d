use kernel::fcntl::{OMode, O_CREATE, O_RDONLY, O_RDWR, O_TRUNC, O_WRONLY};
use kernel::file::{close, dup, filealloc, open_check, open_file, File, FileKind, FileOp, InodeWrite, Release, MAX_WRITE};
use kernel::fs::Inode;
use kernel::rc::RcInner;
use kernel::stat::InodeType;
use kernel::sysfile::{close_all, fork_files, open_install, pipealloc, sys_close, sys_dup, sys_pipe};

fn inode(type_: InodeType, major: i16) -> Inode {
    Inode { dev: 1, inum: 5, ref_: 1, valid: true, type_, major, minor: 0, nlink: 1, size: 0, addrs: [0; 13] }
}

fn table(n: usize) -> Vec<RcInner<File>> {
    (0..n).map(|_| RcInner::new(File::none())).collect()
}

#[test]
fn rc_counts() {
    let mut r = RcInner::new(3u8);
    assert_eq!(RcInner::strong(&r), 0);
    RcInner::inc_strong(&mut r);
    RcInner::inc_strong(&mut r);
    assert_eq!(RcInner::strong(&r), 2);
    RcInner::dec_strong(&mut r);
    assert_eq!(RcInner::strong(&r), 1);
    assert_eq!(*r.deref(), 3);
    *r.deref_mut() = 4;
    assert_eq!(*r.deref(), 4);
    assert_eq!(RcInner::strong(&r), 1);
}

#[test]
fn filealloc_dup_close() {
    let mut ft = table(3);
    let i = filealloc(&mut ft).unwrap();
    assert_eq!(i, 0);
    assert_eq!(RcInner::strong(&ft[0]), 1);
    *ft[0].deref_mut() = File { kind: FileKind::Pipe(7), readable: true, writable: false };
    assert_eq!(filealloc(&mut ft), Some(1));
    dup(&mut ft, 0);
    assert_eq!(RcInner::strong(&ft[0]), 2);
    assert!(close(&mut ft, 0).is_none());
    let f = close(&mut ft, 0).unwrap();
    assert!(f.kind == FileKind::Pipe(7));
    assert_eq!(RcInner::strong(&ft[0]), 0);
    assert!(ft[0].deref().kind == FileKind::Empty);
    assert!(f.drop() == Release::Pipe(7, false));
}

#[test]
fn filealloc_fails_when_table_full() {
    let mut ft = table(2);
    filealloc(&mut ft).unwrap();
    filealloc(&mut ft).unwrap();
    assert_eq!(filealloc(&mut ft), None);
}

#[test]
fn read_and_write_permissions() {
    let f = File { kind: FileKind::Inode { ip: 3, off: 10 }, readable: true, writable: false };
    assert!(f.read() == FileOp::Inode(3, 10));
    assert!(f.write() == FileOp::Fail);
    let d = File { kind: FileKind::Device { ip: 2, major: 1 }, readable: true, writable: true };
    assert!(d.read() == FileOp::Device(1));
    let bad = File { kind: FileKind::Device { ip: 2, major: 5 }, readable: true, writable: true };
    assert!(bad.write() == FileOp::Fail);
    let neg = File { kind: FileKind::Device { ip: 2, major: -1 }, readable: true, writable: true };
    assert!(neg.read() == FileOp::Fail);
}

#[test]
fn advance_moves_inode_offset() {
    let mut f = File { kind: FileKind::Inode { ip: 3, off: 10 }, readable: true, writable: true };
    f.advance(5);
    assert!(f.kind == FileKind::Inode { ip: 3, off: 15 });
    f.advance(-1);
    assert!(f.kind == FileKind::Inode { ip: 3, off: 15 });
}

#[test]
fn stat_and_release_by_kind() {
    let f = File { kind: FileKind::Device { ip: 4, major: 1 }, readable: true, writable: true };
    assert_eq!(f.stat(), Ok(4));
    assert!(f.drop() == Release::Inode(4));
    let p = File { kind: FileKind::Pipe(1), readable: true, writable: false };
    assert_eq!(p.stat(), Err(()));
    assert!(File::none().drop() == Release::Nothing);
}

#[test]
fn open_checks() {
    let dir = inode(InodeType::Dir, 0);
    assert_eq!(open_check(OMode(O_RDONLY), false, &dir), Ok(false));
    assert_eq!(open_check(OMode(O_RDWR), false, &dir), Err(()));
    let dev = inode(InodeType::Device, 1);
    assert_eq!(open_check(OMode(O_RDWR), false, &dev), Ok(false));
    let baddev = inode(InodeType::Device, 10);
    assert_eq!(open_check(OMode(O_RDONLY), false, &baddev), Err(()));
    let file = inode(InodeType::File, 0);
    assert_eq!(open_check(OMode(O_WRONLY | O_TRUNC), false, &file), Ok(true));
    assert_eq!(open_check(OMode(O_CREATE | O_RDWR), true, &file), Ok(false));
}

#[test]
fn open_file_modes() {
    let file = inode(InodeType::File, 0);
    let f = open_file(OMode(O_WRONLY), 9, &file);
    assert!(f.kind == FileKind::Inode { ip: 9, off: 0 });
    assert!(!f.readable && f.writable);
    let f = open_file(OMode(O_RDWR), 9, &file);
    assert!(f.readable && f.writable);
    let f = open_file(OMode(O_RDONLY), 9, &file);
    assert!(f.readable && !f.writable);
    let dev = inode(InodeType::Device, 1);
    let f = open_file(OMode(O_RDWR), 2, &dev);
    assert!(f.kind == FileKind::Device { ip: 2, major: 1 });
}

#[test]
fn omode_bits() {
    let m = OMode::from_bits_retain(O_CREATE | O_RDWR);
    assert_eq!(m.bits(), 0x202);
    assert!(m.intersects(OMode(O_RDWR)));
    assert!(!m.intersects(OMode(O_TRUNC)));
}

#[test]
fn inode_write_goes_in_transactions() {
    let mut w = InodeWrite::new(7000);
    assert_eq!(w.next(), Some(MAX_WRITE));
    w.record(MAX_WRITE, MAX_WRITE);
    assert_eq!(w.next(), Some(MAX_WRITE));
    w.record(MAX_WRITE, MAX_WRITE);
    assert_eq!(w.next(), Some(7000 - 2 * MAX_WRITE));
    w.record(7000 - 2 * MAX_WRITE, 7000 - 2 * MAX_WRITE);
    assert_eq!(w.next(), None);
    assert_eq!(w.result(), 7000);
}

#[test]
fn short_inode_write_fails() {
    let mut w = InodeWrite::new(100);
    assert_eq!(w.next(), Some(100));
    w.record(100, 40);
    assert_eq!(w.next(), None);
    assert_eq!(w.result(), -1);
    let empty = InodeWrite::new(0);
    assert_eq!(empty.next(), None);
    assert_eq!(empty.result(), 0);
}

#[test]
fn close_all_releases_last_references() {
    let mut ftable = table(3);
    let f0 = filealloc(&mut ftable).unwrap();
    let f1 = filealloc(&mut ftable).unwrap();
    dup(&mut ftable, f0);
    dup(&mut ftable, f1);
    let pipe_file = File { kind: FileKind::Pipe(9), readable: true, writable: false };
    *ftable[f0].deref_mut() = pipe_file;
    // f0 is named by two descriptors of this process; f1 by one, and
    // another process holds its second reference.
    let mut ofile = vec![Some(f0), None, Some(f1), Some(f0)];
    let released = close_all(&mut ofile, &mut ftable);
    assert!(ofile.iter().all(|o| o.is_none()));
    assert_eq!(released.len(), 1);
    assert!(released[0] == pipe_file);
    assert_eq!(RcInner::strong(&ftable[f0]), 0);
    assert_eq!(RcInner::strong(&ftable[f1]), 1);
}

#[test]
fn pipealloc_takes_two_files() {
    let mut ftable = table(3);
    let (f0, f1) = pipealloc(&mut ftable, Some(4)).unwrap();
    assert_eq!((f0, f1), (0, 1));
    assert!(*ftable[f0].deref() == File { kind: FileKind::Pipe(4), readable: true, writable: false });
    assert!(*ftable[f1].deref() == File { kind: FileKind::Pipe(4), readable: false, writable: true });
    assert_eq!(pipealloc(&mut ftable, Some(5)), Err(()));
    assert_eq!(RcInner::strong(&ftable[2]), 0);
    let mut fresh = table(2);
    assert_eq!(pipealloc(&mut fresh, None), Err(()));
    assert_eq!((RcInner::strong(&fresh[0]), RcInner::strong(&fresh[1])), (0, 0));
}

#[test]
fn pipe_gets_lowest_descriptors() {
    let mut ftable = table(4);
    let mut ofile = vec![None; 16];
    ofile[0] = Some(3);
    RcInner::inc_strong(&mut ftable[3]);
    assert_eq!(sys_pipe(&mut ofile, &mut ftable, Some(8)), Ok((1, 2)));
    assert_eq!((ofile[1], ofile[2]), (Some(0), Some(1)));
    assert_eq!((RcInner::strong(&ftable[0]), RcInner::strong(&ftable[1])), (1, 1));
}

#[test]
fn pipe_without_descriptors_closes_both_ends() {
    let mut ftable = table(4);
    RcInner::inc_strong(&mut ftable[3]);
    let mut ofile = vec![Some(3); 16];
    assert_eq!(sys_pipe(&mut ofile, &mut ftable, Some(8)), Err(()));
    assert!(ofile.iter().all(|o| *o == Some(3)));
    assert_eq!((RcInner::strong(&ftable[0]), RcInner::strong(&ftable[1])), (0, 0));
}

#[test]
fn pipe_with_one_descriptor_keeps_read_end() {
    let mut ftable = table(4);
    RcInner::inc_strong(&mut ftable[3]);
    let mut ofile = vec![Some(3); 16];
    ofile[5] = None;
    assert_eq!(sys_pipe(&mut ofile, &mut ftable, Some(8)), Err(()));
    assert_eq!(ofile[5], Some(0));
    assert_eq!((RcInner::strong(&ftable[0]), RcInner::strong(&ftable[1])), (1, 0));
}

#[test]
fn open_installs_file_at_lowest_descriptor() {
    let mut ftable = table(2);
    RcInner::inc_strong(&mut ftable[0]);
    let mut ofile = vec![None; 16];
    ofile[0] = Some(0);
    let dev = inode(InodeType::Device, 1);
    assert_eq!(open_install(&mut ofile, &mut ftable, OMode(O_RDWR), 7, &dev), Ok(1));
    assert_eq!(ofile[1], Some(1));
    assert!(*ftable[1].deref() == File { kind: FileKind::Device { ip: 7, major: 1 }, readable: true, writable: true });
    assert_eq!(RcInner::strong(&ftable[1]), 1);
}

#[test]
fn open_without_descriptor_gives_file_back() {
    let mut ftable = table(2);
    RcInner::inc_strong(&mut ftable[0]);
    let mut ofile = vec![Some(0); 16];
    let file = inode(InodeType::File, 0);
    assert_eq!(open_install(&mut ofile, &mut ftable, OMode(O_RDONLY), 7, &file), Err(()));
    assert!(ofile.iter().all(|o| *o == Some(0)));
    assert_eq!(RcInner::strong(&ftable[1]), 0);
    let mut full = table(1);
    RcInner::inc_strong(&mut full[0]);
    let mut free = vec![None; 16];
    assert_eq!(open_install(&mut free, &mut full, OMode(O_RDONLY), 7, &file), Err(()));
    assert!(free.iter().all(|o| o.is_none()));
}

fn open_table() -> (Vec<Option<usize>>, Vec<RcInner<File>>) {
    let mut ftable = table(3);
    RcInner::inc_strong(&mut ftable[1]);
    *ftable[1].deref_mut() = File { kind: FileKind::Pipe(2), readable: true, writable: false };
    let mut ofile = vec![None; 16];
    ofile[0] = Some(1);
    (ofile, ftable)
}

#[test]
fn dup_takes_lowest_free_descriptor() {
    let (mut ofile, mut ftable) = open_table();
    assert_eq!(sys_dup(&mut ofile, &mut ftable, 0), 1);
    assert_eq!(ofile[1], Some(1));
    assert_eq!(RcInner::strong(&ftable[1]), 2);
    assert_eq!(sys_dup(&mut ofile, &mut ftable, 5), -1);
    assert_eq!(sys_dup(&mut ofile, &mut ftable, -1), -1);
    assert_eq!(sys_dup(&mut ofile, &mut ftable, 16), -1);
    assert_eq!(RcInner::strong(&ftable[1]), 2);
}

#[test]
fn dup_with_full_table_keeps_counts() {
    let (_, mut ftable) = open_table();
    let mut ofile = vec![Some(1); 16];
    assert_eq!(sys_dup(&mut ofile, &mut ftable, 3), -1);
    assert_eq!(RcInner::strong(&ftable[1]), 1);
}

#[test]
fn close_frees_descriptor_and_last_reference() {
    let (mut ofile, mut ftable) = open_table();
    assert_eq!(sys_dup(&mut ofile, &mut ftable, 0), 1);
    let (r, released) = sys_close(&mut ofile, &mut ftable, 0);
    assert_eq!(r, 0);
    assert!(released.is_none());
    assert_eq!(ofile[0], None);
    let (r, released) = sys_close(&mut ofile, &mut ftable, 1);
    assert_eq!(r, 0);
    assert!(released == Some(File { kind: FileKind::Pipe(2), readable: true, writable: false }));
    assert_eq!(RcInner::strong(&ftable[1]), 0);
    let (r, released) = sys_close(&mut ofile, &mut ftable, 1);
    assert_eq!(r, -1);
    assert!(released.is_none());
}

#[test]
fn fork_copies_descriptors_and_counts_them() {
    let (mut ofile, mut ftable) = open_table();
    ofile[4] = Some(1);
    RcInner::inc_strong(&mut ftable[1]);
    let child = fork_files(&ofile, &mut ftable);
    assert_eq!(child, ofile);
    assert_eq!(RcInner::strong(&ftable[1]), 4);
    assert_eq!(RcInner::strong(&ftable[0]), 0);
}

#[test]
fn inode_write_moves_offset_by_bytes_written() {
    let mut f = File { kind: FileKind::Inode { ip: 3, off: 10 }, readable: false, writable: true };
    let mut w = InodeWrite::new(5000);
    let n1 = w.next().unwrap();
    f.write_step(&mut w, n1, n1);
    let n2 = w.next().unwrap();
    assert_eq!(n2, 5000 - MAX_WRITE);
    f.write_step(&mut w, n2, 100);
    assert_eq!(w.next(), None);
    assert_eq!(w.result(), -1);
    assert!(f.kind == FileKind::Inode { ip: 3, off: 10 + MAX_WRITE as u32 + 100 });
    let mut g = File { kind: FileKind::Inode { ip: 3, off: 0 }, readable: false, writable: true };
    let mut all = InodeWrite::new(20);
    let n = all.next().unwrap();
    g.write_step(&mut all, n, n);
    assert_eq!(all.result(), 20);
    assert!(g.kind == FileKind::Inode { ip: 3, off: 20 });
}

#[test]
fn write_inode_in_transactions() {
    let calls = std::cell::RefCell::new(Vec::new());
    let mut f = File { kind: FileKind::Inode { ip: 3, off: 10 }, readable: false, writable: true };
    let r = f.write_inode(7000, |off: u32, k: i32| {
        calls.borrow_mut().push((off, k));
        k
    });
    assert_eq!(r, 7000);
    assert!(f.kind == FileKind::Inode { ip: 3, off: 7010 });
    assert_eq!(*calls.borrow(), vec![(10, MAX_WRITE), (10 + MAX_WRITE as u32, MAX_WRITE), (10 + 2 * MAX_WRITE as u32, 7000 - 2 * MAX_WRITE)]);
    let mut g = File { kind: FileKind::Inode { ip: 3, off: 0 }, readable: false, writable: true };
    let short = g.write_inode(5000, |_off: u32, k: i32| if k == MAX_WRITE { k } else { 7 });
    assert_eq!(short, -1);
    assert!(g.kind == FileKind::Inode { ip: 3, off: MAX_WRITE as u32 + 7 });
    let mut h = File { kind: FileKind::Inode { ip: 3, off: 0 }, readable: false, writable: true };
    assert_eq!(h.write_inode(10, |_off: u32, _k: i32| -1), -1);
    assert!(h.kind == FileKind::Inode { ip: 3, off: 0 });
}
