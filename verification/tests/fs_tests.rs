use kernel::fs::{chunks, BlockIo, Chunk, Dinode, Inode, BSIZE, MAXFILE};
use std::cell::RefCell;
use kernel::stat::InodeType;
use kernel::sysfile::{chdir_ok, create_init, create_links, create_reuses, is_dot_or_dotdot, isdirempty, link_begin, link_ok, link_undo, unlink_links};

fn inode(size: u32) -> Inode {
    Inode { dev: 1, inum: 33, ref_: 1, valid: true, type_: InodeType::File, major: 0, minor: 0, nlink: 1, size, addrs: [0; 13] }
}

#[test]
fn iblock_of_inode() {
    assert_eq!(Inode::iblock(33, 32), 34);
    assert_eq!(Inode::iblock(15, 32), 32);
}

#[test]
fn read_len_clamps_to_file() {
    let ip = inode(100);
    assert_eq!(ip.read_len(0, 50), 50);
    assert_eq!(ip.read_len(80, 50), 20);
    assert_eq!(ip.read_len(100, 5), 0);
    assert_eq!(ip.read_len(101, 5), 0);
    assert_eq!(ip.read_len(10, usize::MAX), 0);
}

#[test]
fn write_ok_limits() {
    let ip = inode(100);
    assert!(ip.write_ok(100, 10));
    assert!(!ip.write_ok(101, 1));
    assert!(ip.write_ok(0, MAXFILE * BSIZE));
    assert!(!ip.write_ok(1, MAXFILE * BSIZE));
}

#[test]
fn grow_to_only_grows() {
    let mut ip = inode(100);
    ip.grow_to(50);
    assert_eq!(ip.size, 100);
    ip.grow_to(150);
    assert_eq!(ip.size, 150);
}

#[test]
fn chunks_follow_blocks() {
    let c = chunks(1000, 2100);
    assert_eq!(
        c,
        vec![
            Chunk { block: 0, offset: 1000, len: 24 },
            Chunk { block: 1, offset: 0, len: 1024 },
            Chunk { block: 2, offset: 0, len: 1024 },
            Chunk { block: 3, offset: 0, len: 28 },
        ]
    );
    assert!(chunks(5, 0).is_empty());
}

#[test]
fn trunc_frees_direct_then_indirect() {
    let mut ip = inode(5000);
    ip.addrs = [10, 0, 11, 0, 0, 0, 0, 0, 0, 0, 0, 12, 50];
    let mut ind = vec![0u32; 256];
    ind[0] = 60;
    ind[255] = 61;
    let freed = ip.trunc(&ind);
    assert_eq!(freed, vec![10, 11, 12, 60, 61, 50]);
    assert_eq!(ip.addrs, [0; 13]);
    assert_eq!(ip.size, 0);
}

#[test]
fn trunc_without_indirect_block() {
    let mut ip = inode(10);
    ip.addrs[0] = 7;
    let freed = ip.trunc(&[]);
    assert_eq!(freed, vec![7]);
}

#[test]
fn put_frees_unlinked_last_reference() {
    let mut ip = inode(0);
    ip.nlink = 0;
    assert!(ip.put_frees());
    ip.put();
    assert_eq!(ip.ref_, 0);
    assert!(!ip.valid);
    assert!(ip.type_ == InodeType::Unknown);
    let mut kept = inode(0);
    kept.dup();
    assert_eq!(kept.ref_, 2);
    kept.put();
    assert_eq!(kept.ref_, 1);
    assert!(kept.valid);
}

#[test]
fn stat_copies_fields() {
    let ip = inode(77);
    let st = ip.stat();
    assert_eq!((st.dev, st.ino, st.type_, st.nlink, st.size), (1, 33, 2, 1, 77));
}

#[test]
fn sysfile_decisions() {
    assert!(create_reuses(InodeType::File, InodeType::Device));
    assert!(!create_reuses(InodeType::Dir, InodeType::Dir));
    assert!(!create_reuses(InodeType::File, InodeType::Dir));
    assert!(is_dot_or_dotdot(b".\0\0\0"));
    assert!(is_dot_or_dotdot(b"..\0\0"));
    assert!(!is_dot_or_dotdot(b"...\0"));
    assert!(!is_dot_or_dotdot(b"a\0\0"));
    assert!(isdirempty(&[1, 1, 0, 0]));
    assert!(!isdirempty(&[1, 1, 0, 4]));
    assert!(isdirempty(&[1, 1]));
    assert!(link_ok(InodeType::File, 1, 1));
    assert!(!link_ok(InodeType::Dir, 1, 1));
    assert!(!link_ok(InodeType::File, 1, 2));
}

fn typed(type_: InodeType, nlink: i16) -> Inode {
    Inode { type_, nlink, ..inode(0) }
}

#[test]
fn link_counts_and_undo() {
    let mut ip = typed(InodeType::File, 1);
    assert!(link_begin(&mut ip));
    assert_eq!(ip.nlink, 2);
    link_undo(&mut ip);
    assert_eq!(ip.nlink, 1);
    let mut dir = typed(InodeType::Dir, 2);
    assert!(!link_begin(&mut dir));
    assert_eq!(dir.nlink, 2);
}

#[test]
fn unlink_drops_links() {
    let mut dp = typed(InodeType::Dir, 3);
    let mut ip = typed(InodeType::File, 2);
    unlink_links(&mut dp, &mut ip);
    assert_eq!((dp.nlink, ip.nlink), (3, 1));
    let mut sub = typed(InodeType::Dir, 1);
    unlink_links(&mut dp, &mut sub);
    assert_eq!((dp.nlink, sub.nlink), (2, 0));
}

#[test]
fn create_sets_links() {
    let mut ip = typed(InodeType::Device, 0);
    create_init(&mut ip, 1, 7);
    assert_eq!((ip.major, ip.minor, ip.nlink), (1, 7, 1));
    let mut dp = typed(InodeType::Dir, 2);
    let mut sub = typed(InodeType::Dir, 1);
    create_links(&mut dp, &mut sub, true);
    assert_eq!((dp.nlink, sub.nlink), (3, 1));
    let mut failed = typed(InodeType::Dir, 1);
    create_links(&mut dp, &mut failed, false);
    assert_eq!((dp.nlink, failed.nlink), (3, 0));
    let mut file = typed(InodeType::File, 1);
    create_links(&mut dp, &mut file, true);
    assert_eq!((dp.nlink, file.nlink), (3, 1));
}

#[test]
fn inode_place_in_block() {
    assert_eq!(Inode::index_in_block(33), 1);
    assert_eq!(Inode::index_in_block(16), 0);
}

#[test]
fn load_reads_disk_inode_once() {
    let mut ip = Inode { valid: false, type_: InodeType::Unknown, nlink: 0, ..inode(0) };
    let mut addrs = [0u32; 13];
    addrs[0] = 70;
    let dip = Dinode { type_: 1, major: 0, minor: 0, nlink: 2, size: 64, addrs };
    ip.load(&dip);
    assert!(ip.valid);
    assert!(ip.type_ == InodeType::Dir);
    assert_eq!((ip.nlink, ip.size, ip.addrs[0]), (2, 64, 70));
    let other = Dinode { type_: 2, major: 0, minor: 0, nlink: 9, size: 1, addrs: [0; 13] };
    ip.load(&other);
    assert!(ip.type_ == InodeType::Dir);
    assert_eq!(ip.nlink, 2);
    assert_eq!(InodeType::Dir.code(), 1);
    assert_eq!(InodeType::Device.code(), 3);
    assert_eq!(InodeType::Unknown.code(), 0);
}

#[test]
fn chdir_only_into_directories() {
    assert!(chdir_ok(&typed(InodeType::Dir, 2)));
    assert!(!chdir_ok(&typed(InodeType::File, 1)));
    assert!(!chdir_ok(&typed(InodeType::Device, 1)));
}

#[test]
fn inode_read_goes_block_by_block() {
    let ip = inode(3000);
    let seen = RefCell::new(Vec::new());
    let r = ip.read(1000, 5000, |c: Chunk| {
        seen.borrow_mut().push(c);
        BlockIo::Done
    });
    assert_eq!(r, Ok(2000));
    assert_eq!(
        *seen.borrow(),
        vec![
            Chunk { block: 0, offset: 1000, len: 24 },
            Chunk { block: 1, offset: 0, len: 1024 },
            Chunk { block: 2, offset: 0, len: 952 },
        ]
    );
    assert_eq!(ip.read(3001, 5, |_c: Chunk| BlockIo::Done), Ok(0));
}

#[test]
fn inode_read_stops_or_fails() {
    let ip = inode(3000);
    let unmapped = ip.read(0, 3000, |c: Chunk| if c.block == 1 { BlockIo::NoBlock } else { BlockIo::Done });
    assert_eq!(unmapped, Ok(1024));
    let failed = ip.read(0, 3000, |c: Chunk| if c.block == 2 { BlockIo::CopyFailed } else { BlockIo::Done });
    assert_eq!(failed, Err(()));
}

#[test]
fn inode_write_grows_file() {
    let mut ip = inode(100);
    assert_eq!(ip.write(100, 2000, |_c: Chunk| true), Ok(2000));
    assert_eq!(ip.size, 2100);
    assert_eq!(ip.write(0, 10, |_c: Chunk| true), Ok(10));
    assert_eq!(ip.size, 2100);
    assert_eq!(ip.write(2101, 1, |_c: Chunk| true), Err(()));
    assert_eq!(ip.write(0, MAXFILE * BSIZE + 1, |_c: Chunk| true), Err(()));
    assert_eq!(ip.size, 2100);
}

#[test]
fn inode_write_stops_at_failed_block() {
    let mut ip = inode(0);
    assert_eq!(ip.write(0, 3000, |c: Chunk| c.block < 2), Ok(2048));
    assert_eq!(ip.size, 2048);
}

#[test]
fn inode_read_past_end_calls_nothing() {
    let ip = inode(100);
    assert_eq!(ip.read(200, 10, |_c: Chunk| BlockIo::CopyFailed), Ok(0));
    assert_eq!(ip.read(100, 10, |_c: Chunk| BlockIo::CopyFailed), Ok(0));
    assert_eq!(ip.read(10, usize::MAX, |_c: Chunk| BlockIo::CopyFailed), Ok(0));
}
