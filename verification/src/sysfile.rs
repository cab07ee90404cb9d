//! The decisions of the file-system system calls: argument checks on
//! names and inode types.
use vstd::prelude::*;
use crate::fcntl::OMode;
use crate::file::{close, dup, filealloc, open_file, opened, File, FileKind};
use crate::fs::Inode;
use crate::rc::{RcInner, lemma_rc_ext};
use crate::stat::InodeType;
use crate::syscall::{argfd, fdalloc, NOFILE};

verus! {

/// When create finds the name already there: only creating a plain file
/// over an existing file or device gives back the existing inode; anything
/// else fails.
pub fn create_reuses(type_: InodeType, existing: InodeType) -> (r: bool)
    ensures
        r == (type_ == InodeType::File && (existing == InodeType::File || existing
            == InodeType::Device)),
{
    type_ == InodeType::File && (existing == InodeType::File || existing == InodeType::Device)
}

/// Whether a directory-entry name (DIRSIZ bytes, nul padded) is "." or
/// "..", which cannot be unlinked.
pub fn is_dot_or_dotdot(name: &[u8]) -> (r: bool)
    requires
        name@.len() >= 3,
    ensures
        r == ((name@[0] == 0x2e && name@[1] == 0) || (name@[0] == 0x2e && name@[1] == 0x2e
            && name@[2] == 0)),
{
    (name[0] == 0x2e && name[1] == 0) || (name[0] == 0x2e && name[1] == 0x2e && name[2] == 0)
}

/// Is the directory empty except for "." and ".."? `inums` are the inode
/// numbers of its entries, in order: the entries after the first two must
/// all be free.
pub fn isdirempty(inums: &[u16]) -> (r: bool)
    ensures
        r == (forall|k: int| 2 <= k < inums@.len() ==> inums@[k] == 0),
{
    let mut k: usize = 2;
    while k < inums.len()
        invariant
            2 <= k,
            forall|j: int| 2 <= j < k && j < inums@.len() ==> inums@[j] == 0,
        decreases inums@.len() - k,
    {
        if inums[k] != 0 {
            return false;
        }
        k = k + 1;
    }
    true
}

/// Whether a new name may link to inode `ip` (of type `ip_type`, on
/// device `ip_dev`) in a directory on device `dp_dev`: directories cannot
/// be linked, and links stay on one device.
pub fn link_ok(ip_type: InodeType, ip_dev: u32, dp_dev: u32) -> (r: bool)
    ensures
        r == (ip_type != InodeType::Dir && ip_dev == dp_dev),
{
    ip_type != InodeType::Dir && ip_dev == dp_dev
}

/// Whether chdir may make inode `ip` the current directory: only a
/// directory can be.
pub fn chdir_ok(ip: &Inode) -> (r: bool)
    ensures
        r == (ip.type_ == InodeType::Dir),
{
    ip.type_ == InodeType::Dir
}

/// Inode `ip` with `d` more links.
pub open spec fn relinked(ip: Inode, d: int) -> Inode {
    Inode { nlink: (ip.nlink + d) as i16, ..ip }
}

/// What link first does to the inode it links to: a directory cannot be
/// linked, and is left as it is; anything else gets one more link.
/// Returns whether the link may go on.
pub fn link_begin(ip: &mut Inode) -> (r: bool)
    requires
        old(ip).type_ != InodeType::Dir ==> old(ip).nlink < i16::MAX,
    ensures
        r == (old(ip).type_ != InodeType::Dir),
        r ==> *final(ip) == relinked(*old(ip), 1),
        !r ==> *final(ip) == *old(ip),
{
    if ip.type_ == InodeType::Dir {
        return false;
    }
    ip.nlink = ip.nlink + 1;
    true
}

/// Take back the link that link gave an inode, when the new name could
/// not be made.
pub fn link_undo(ip: &mut Inode)
    requires
        old(ip).nlink > i16::MIN,
    ensures
        *final(ip) == relinked(*old(ip), -1),
{
    ip.nlink = ip.nlink - 1;
}

/// A link that could not be made leaves the inode as it was.
pub proof fn lemma_link_undo(ip: Inode)
    requires
        ip.nlink < i16::MAX,
    ensures
        relinked(relinked(ip, 1), -1) == ip,
{
}

/// The link counts after unlink removed the entry for `ip` from directory
/// `dp`: `ip` loses a link, and `dp` loses the ".." link of a removed
/// directory. An inode that is found has at least one link.
pub fn unlink_links(dp: &mut Inode, ip: &mut Inode)
    requires
        old(ip).nlink >= 1,
        old(ip).type_ == InodeType::Dir ==> old(dp).nlink > i16::MIN,
    ensures
        *final(dp) == (if old(ip).type_ == InodeType::Dir {
            relinked(*old(dp), -1)
        } else {
            *old(dp)
        }),
        *final(ip) == relinked(*old(ip), -1),
{
    if ip.type_ == InodeType::Dir {
        dp.nlink = dp.nlink - 1;
    }
    ip.nlink = ip.nlink - 1;
}

/// A newly allocated inode of create: its device numbers, and the one
/// link that the new directory entry will be.
pub fn create_init(ip: &mut Inode, major: i16, minor: i16)
    ensures
        *final(ip) == (Inode { major: major, minor: minor, nlink: 1, ..*old(ip) }),
{
    ip.major = major;
    ip.minor = minor;
    ip.nlink = 1;
}

/// The link counts once create has tried to enter new inode `ip` in
/// directory `dp` (`ok` tells whether it could): on failure the new inode
/// has no link, so that putting it frees it; a new directory gives its
/// parent one more link, for its "..".
pub fn create_links(dp: &mut Inode, ip: &mut Inode, ok: bool)
    requires
        ok && old(ip).type_ == InodeType::Dir ==> old(dp).nlink < i16::MAX,
    ensures
        !ok ==> *final(ip) == (Inode { nlink: 0, ..*old(ip) }) && *final(dp) == *old(dp),
        ok ==> *final(ip) == *old(ip) && *final(dp) == (if old(ip).type_ == InodeType::Dir {
            relinked(*old(dp), 1)
        } else {
            *old(dp)
        }),
{
    if !ok {
        ip.nlink = 0;
        return;
    }
    if ip.type_ == InodeType::Dir {
        dp.nlink = dp.nlink + 1;
    }
}

/// The descriptors that name file `f` among `ofile`.
pub open spec fn refs(ofile: Seq<Option<usize>>, f: usize) -> nat
    decreases ofile.len(),
{
    if ofile.len() == 0 {
        0
    } else {
        refs(ofile.drop_last(), f) + if ofile.last() == Some(f) {
            1nat
        } else {
            0nat
        }
    }
}

/// Each open descriptor names a file of the table that has a reference.
pub open spec fn fds_ok(ofile: Seq<Option<usize>>, ftable: Seq<RcInner<File>>) -> bool {
    forall|i: int|
        0 <= i < ofile.len() ==> (#[trigger] ofile[i] matches Some(f) ==> f < ftable.len()
            && ftable[f as int].count() >= 1)
}

/// Duplicate descriptor fd: its file gets one more reference and the
/// lowest free descriptor. Returns the new descriptor; -1 when fd is not
/// open, or when no descriptor is free (the new reference is dropped
/// again).
pub fn sys_dup(ofile: &mut Vec<Option<usize>>, ftable: &mut Vec<RcInner<File>>, fd: i32) -> (r: i64)
    requires
        old(ofile)@.len() == NOFILE,
        fds_ok(old(ofile)@, old(ftable)@),
        forall|f: usize| f < old(ftable)@.len() ==> #[trigger] old(ftable)@[f as int].count() < usize::MAX,
    ensures
        final(ofile)@.len() == NOFILE,
        match argfd_spec(fd, old(ofile)@) {
            None => r == -1 && final(ofile)@ == old(ofile)@ && final(ftable)@ == old(ftable)@,
            Some(f) => if exists|j: int| 0 <= j < NOFILE && old(ofile)@[j] is None {
                &&& 0 <= r < NOFILE
                &&& old(ofile)@[r as int] is None
                &&& forall|j: int| 0 <= j < r ==> old(ofile)@[j] is Some
                &&& final(ofile)@ == old(ofile)@.update(r as int, Some(f))
                &&& final(ftable)@[f as int].count() == old(ftable)@[f as int].count() + 1
                &&& final(ftable)@[f as int].value() == old(ftable)@[f as int].value()
                &&& forall|j: int|
                    0 <= j < old(ftable)@.len() && j != f ==> final(ftable)@[j] == old(ftable)@[j]
            } else {
                &&& r == -1
                &&& final(ofile)@ == old(ofile)@
                &&& final(ftable)@ == old(ftable)@
            },
        },
{
    let f = match argfd(fd, ofile.as_slice()) {
        Ok(f) => f,
        Err(_) => return -1,
    };
    assert(old(ofile)@[fd as int] == Some(f));
    dup(ftable, f);
    match fdalloc(ofile, f) {
        Ok(nfd) => nfd as i64,
        Err(g) => {
            let _ = close(ftable, g);
            proof {
                assert forall|j: int| 0 <= j < ftable@.len() implies ftable@[j] == old(ftable)@[j] by {
                    if j == f {
                        lemma_rc_ext(ftable@[j], old(ftable)@[j]);
                    }
                }
                assert(ftable@ =~= old(ftable)@);
            }
            -1
        },
    }
}

/// The open file that descriptor `fd` names.
pub open spec fn argfd_spec(fd: i32, ofile: Seq<Option<usize>>) -> Option<usize> {
    if 0 <= fd < NOFILE {
        ofile[fd as int]
    } else {
        None
    }
}

/// Close descriptor fd: it is freed and its file loses a reference; when
/// that was the last one, the file is returned to be released. Returns -1
/// when fd is not open.
pub fn sys_close(ofile: &mut Vec<Option<usize>>, ftable: &mut Vec<RcInner<File>>, fd: i32) -> (r: (i64, Option<File>))
    requires
        old(ofile)@.len() == NOFILE,
        fds_ok(old(ofile)@, old(ftable)@),
    ensures
        final(ofile)@.len() == NOFILE,
        match argfd_spec(fd, old(ofile)@) {
            None => r == (-1i64, None::<File>) && final(ofile)@ == old(ofile)@ && final(ftable)@
                == old(ftable)@,
            Some(f) => {
                &&& r.0 == 0
                &&& final(ofile)@ == old(ofile)@.update(fd as int, None)
                &&& final(ftable)@.len() == old(ftable)@.len()
                &&& final(ftable)@[f as int].count() == old(ftable)@[f as int].count() - 1
                &&& (old(ftable)@[f as int].count() == 1 ==> r.1 == Some(old(ftable)@[f as int].value()))
                &&& (old(ftable)@[f as int].count() > 1 ==> r.1 is None)
                &&& forall|j: int|
                    0 <= j < old(ftable)@.len() && j != f ==> final(ftable)@[j] == old(ftable)@[j]
            },
        },
{
    let f = match argfd(fd, ofile.as_slice()) {
        Ok(f) => f,
        Err(_) => return (-1, None),
    };
    assert(old(ofile)@[fd as int] == Some(f));
    ofile.set(fd as usize, None);
    let released = close(ftable, f);
    (0, released)
}

/// Allocate the two files of a new pipe with handle `pipe` (None when the
/// pipe itself could not be allocated): the read end, then the write end.
/// On failure the files taken so far are closed again.
pub fn pipealloc(ftable: &mut Vec<RcInner<File>>, pipe: Option<usize>) -> (r: Result<(usize, usize), ()>)
    ensures
        final(ftable)@.len() == old(ftable)@.len(),
        r matches Ok((f0, f1)) ==> {
            &&& pipe is Some
            &&& f0 < f1 < old(ftable)@.len()
            &&& old(ftable)@[f0 as int].count() == 0
            &&& old(ftable)@[f1 as int].count() == 0
            &&& final(ftable)@[f0 as int].count() == 1
            &&& final(ftable)@[f1 as int].count() == 1
            &&& final(ftable)@[f0 as int].value() == (File {
                kind: FileKind::Pipe(pipe->Some_0),
                readable: true,
                writable: false,
            })
            &&& final(ftable)@[f1 as int].value() == (File {
                kind: FileKind::Pipe(pipe->Some_0),
                readable: false,
                writable: true,
            })
            &&& forall|j: int|
                0 <= j < old(ftable)@.len() && j != f0 && j != f1 ==> final(ftable)@[j] == old(
                    ftable,
                )@[j]
        },
        r is Err ==> forall|j: int|
            0 <= j < old(ftable)@.len() ==> final(ftable)@[j].count() == old(ftable)@[j].count(),
        r is Err <==> (pipe is None || !(exists|i: int, j: int|
            0 <= i < j < old(ftable)@.len() && old(ftable)@[i].count() == 0
                && old(ftable)@[j].count() == 0)),
{
    let f0 = match filealloc(ftable) {
        Some(f) => f,
        None => return Err(()),
    };
    let ghost after0 = ftable@;
    let f1 = match filealloc(ftable) {
        Some(f) => f,
        None => {
            proof {
                assert forall|i: int, j: int|
                    0 <= i < j < old(ftable)@.len() && old(ftable)@[i].count() == 0 && old(
                        ftable,
                    )@[j].count() == 0 implies false by {
                    if i != f0 {
                        assert(after0[i].count() == 0);
                    } else {
                        assert(after0[j].count() == 0);
                    }
                }
            }
            let _ = close(ftable, f0);
            return Err(());
        },
    };
    match pipe {
        None => {
            let _ = close(ftable, f0);
            let _ = close(ftable, f1);
            proof {
                assert(f0 < f1);
            }
            Err(())
        },
        Some(pi) => {
            *ftable[f0].deref_mut() = File { kind: FileKind::Pipe(pi), readable: true, writable: false };
            *ftable[f1].deref_mut() = File { kind: FileKind::Pipe(pi), readable: false, writable: true };
            proof {
                assert(f0 < f1);
            }
            Ok((f0, f1))
        },
    }
}

/// The end of the open system call, once inode `ip` (handle `id`) is
/// found and checked: a new file for it, installed at the lowest free
/// descriptor. Err(()) when no file or no descriptor is free; the file
/// taken is then closed again, and the caller drops its inode reference.
pub fn open_install(ofile: &mut Vec<Option<usize>>, ftable: &mut Vec<RcInner<File>>, omode: OMode, id: usize, ip: &Inode) -> (r: Result<i32, ()>)
    requires
        old(ofile)@.len() == NOFILE,
    ensures
        final(ofile)@.len() == NOFILE,
        final(ftable)@.len() == old(ftable)@.len(),
        r is Ok <==> ((exists|j: int| 0 <= j < old(ftable)@.len() && old(ftable)@[j].count() == 0)
            && exists|j: int| 0 <= j < NOFILE && old(ofile)@[j] is None),
        r matches Ok(fd) ==> {
            let f = final(ofile)@[fd as int]->Some_0;
            &&& 0 <= fd < NOFILE
            &&& old(ofile)@[fd as int] is None
            &&& forall|j: int| 0 <= j < fd ==> old(ofile)@[j] is Some
            &&& final(ofile)@ == old(ofile)@.update(fd as int, Some(f))
            &&& f < old(ftable)@.len()
            &&& old(ftable)@[f as int].count() == 0
            &&& forall|j: int| 0 <= j < f ==> old(ftable)@[j].count() != 0
            &&& final(ftable)@[f as int].count() == 1
            &&& final(ftable)@[f as int].value() == opened(omode, id, *ip)
            &&& forall|j: int| 0 <= j < old(ftable)@.len() && j != f ==> final(ftable)@[j] == old(ftable)@[j]
        },
        r is Err ==> {
            &&& final(ofile)@ == old(ofile)@
            &&& forall|j: int|
                0 <= j < old(ftable)@.len() ==> final(ftable)@[j].count() == old(ftable)@[j].count()
        },
{
    let f = match filealloc(ftable) {
        Some(f) => f,
        None => return Err(()),
    };
    *ftable[f].deref_mut() = open_file(omode, id, ip);
    match fdalloc(ofile, f) {
        Ok(fd) => {
            assert(ofile@[fd as int] == Some(f));
            Ok(fd)
        },
        Err(g) => {
            let _ = close(ftable, g);
            Err(())
        },
    }
}

/// The read end and write end of pipe `pi`.
pub open spec fn pipe_end(pi: usize, write: bool) -> File {
    File { kind: FileKind::Pipe(pi), readable: !write, writable: write }
}

/// Whether the descriptor table has two free descriptors.
pub open spec fn two_free(ofile: Seq<Option<usize>>) -> bool {
    exists|i: int, j: int| 0 <= i < j < ofile.len() && ofile[i] is None && ofile[j] is None
}

/// Whether the file table has two unreferenced files.
pub open spec fn two_unused(ftable: Seq<RcInner<File>>) -> bool {
    exists|i: int, j: int|
        0 <= i < j < ftable.len() && ftable[i].count() == 0 && ftable[j].count() == 0
}

/// The pipe system call, given the handle of the newly allocated pipe
/// (None when it could not be allocated): both ends get a file and the
/// lowest free descriptors, read end first. Returns the two descriptors.
/// When the read end gets no descriptor, both files are closed again; when
/// only the write end gets none, it is closed and the read end keeps its
/// descriptor.
pub fn sys_pipe(ofile: &mut Vec<Option<usize>>, ftable: &mut Vec<RcInner<File>>, pipe: Option<usize>) -> (r:
    Result<(i32, i32), ()>)
    requires
        old(ofile)@.len() == NOFILE,
    ensures
        final(ofile)@.len() == NOFILE,
        final(ftable)@.len() == old(ftable)@.len(),
        r is Ok <==> (pipe is Some && two_unused(old(ftable)@) && two_free(old(ofile)@)),
        r matches Ok((fd0, fd1)) ==> {
            let f0 = final(ofile)@[fd0 as int]->Some_0;
            let f1 = final(ofile)@[fd1 as int]->Some_0;
            &&& 0 <= fd0 < fd1 < NOFILE
            &&& old(ofile)@[fd0 as int] is None
            &&& old(ofile)@[fd1 as int] is None
            &&& forall|j: int| 0 <= j < fd1 && j != fd0 ==> old(ofile)@[j] is Some
            &&& final(ofile)@ == old(ofile)@.update(fd0 as int, Some(f0)).update(fd1 as int, Some(f1))
            &&& f0 != f1
            &&& f0 < old(ftable)@.len() && f1 < old(ftable)@.len()
            &&& old(ftable)@[f0 as int].count() == 0 && old(ftable)@[f1 as int].count() == 0
            &&& final(ftable)@[f0 as int].count() == 1 && final(ftable)@[f1 as int].count() == 1
            &&& final(ftable)@[f0 as int].value() == pipe_end(pipe->Some_0, false)
            &&& final(ftable)@[f1 as int].value() == pipe_end(pipe->Some_0, true)
            &&& forall|j: int|
                0 <= j < old(ftable)@.len() && j != f0 && j != f1 ==> final(ftable)@[j] == old(
                    ftable,
                )@[j]
        },
        r is Err && !(pipe is Some && two_unused(old(ftable)@) && exists|j: int|
            0 <= j < NOFILE && old(ofile)@[j] is None) ==> {
            &&& final(ofile)@ == old(ofile)@
            &&& forall|j: int|
                0 <= j < old(ftable)@.len() ==> final(ftable)@[j].count() == old(ftable)@[j].count()
        },
        r is Err && pipe is Some && two_unused(old(ftable)@) && (exists|j: int|
            0 <= j < NOFILE && old(ofile)@[j] is None) ==> {
            let fd0 = choose|j: int| 0 <= j < NOFILE && old(ofile)@[j] is None;
            let f0 = final(ofile)@[fd0]->Some_0;
            &&& forall|j: int| 0 <= j < NOFILE && j != fd0 ==> old(ofile)@[j] is Some
            &&& final(ofile)@ == old(ofile)@.update(fd0, Some(f0))
            &&& f0 < old(ftable)@.len()
            &&& old(ftable)@[f0 as int].count() == 0
            &&& final(ftable)@[f0 as int].count() == 1
            &&& final(ftable)@[f0 as int].value() == pipe_end(pipe->Some_0, false)
            &&& forall|j: int|
                0 <= j < old(ftable)@.len() && j != f0 ==> final(ftable)@[j].count() == old(
                    ftable,
                )@[j].count()
        },
{
    let (f0, f1) = match pipealloc(ftable, pipe) {
        Ok(p) => p,
        Err(_) => {
            proof {
                if pipe is Some && two_unused(old(ftable)@) {
                    let (i, j) = choose|i: int, j: int|
                        0 <= i < j < old(ftable)@.len() && old(ftable)@[i].count() == 0
                            && old(ftable)@[j].count() == 0;
                    assert(false);
                }
            }
            return Err(());
        },
    };
    let ghost after_alloc = ftable@;
    let fd0 = match fdalloc(ofile, f0) {
        Ok(fd) => fd,
        Err(f) => {
            // Neither end gets a descriptor: both files go again.
            let _ = close(ftable, f);
            let _ = close(ftable, f1);
            proof {
                assert(!two_free(old(ofile)@));
                assert(!(exists|j: int| 0 <= j < NOFILE && old(ofile)@[j] is None));
            }
            return Err(());
        },
    };
    let fd1 = match fdalloc(ofile, f1) {
        Ok(fd) => fd,
        Err(f) => {
            let _ = close(ftable, f);
            proof {
                assert(forall|j: int| 0 <= j < NOFILE && j != fd0 ==> old(ofile)@[j] is Some) by {
                    assert forall|j: int| 0 <= j < NOFILE && j != fd0 implies old(ofile)@[j] is Some by {
                        assert(old(ofile)@.update(fd0 as int, Some(f0))[j] is Some);
                    }
                }
                assert(!two_free(old(ofile)@));
                let c = choose|j: int| 0 <= j < NOFILE && old(ofile)@[j] is None;
                assert(c == fd0);
                assert(ofile@[fd0 as int] == Some(f0));
            }
            return Err(());
        },
    };
    proof {
        assert(fd0 < fd1) by {
            if fd1 < fd0 {
                assert(old(ofile)@.update(fd0 as int, Some(f0))[fd1 as int] is Some);
            }
        }
        assert forall|j: int| 0 <= j < fd1 && j != fd0 implies old(ofile)@[j] is Some by {
            assert(old(ofile)@.update(fd0 as int, Some(f0))[j] is Some);
        }
        assert(two_free(old(ofile)@)) by {
            assert(old(ofile)@[fd0 as int] is None && old(ofile)@[fd1 as int] is None);
        }
        assert(ofile@[fd0 as int] == Some(f0));
        assert(ofile@[fd1 as int] == Some(f1));
        assert(two_unused(old(ftable)@)) by {
            assert(old(ftable)@[f0 as int].count() == 0 && old(ftable)@[f1 as int].count() == 0);
        }
    }
    Ok((fd0, fd1))
}

/// A table of descriptors names a file at most once per descriptor.
pub proof fn lemma_refs_bound(ofile: Seq<Option<usize>>, f: usize)
    ensures
        refs(ofile, f) <= ofile.len(),
    decreases ofile.len(),
{
    if ofile.len() > 0 {
        lemma_refs_bound(ofile.drop_last(), f);
    }
}

/// A prefix of a table of descriptors names a file no more often than the
/// whole table does.
pub proof fn lemma_refs_prefix(ofile: Seq<Option<usize>>, i: int, f: usize)
    requires
        0 <= i <= ofile.len(),
    ensures
        refs(ofile.take(i), f) <= refs(ofile, f),
    decreases ofile.len(),
{
    if i < ofile.len() {
        assert(ofile.take(i) =~= ofile.drop_last().take(i));
        lemma_refs_prefix(ofile.drop_last(), i, f);
    } else {
        assert(ofile.take(i) =~= ofile);
    }
}

/// Every descriptor names a file of the table, and each file has at least
/// as many references as there are descriptors naming it.
pub open spec fn fds_counted(ofile: Seq<Option<usize>>, ftable: Seq<RcInner<File>>) -> bool {
    &&& forall|i: int|
        0 <= i < ofile.len() ==> (#[trigger] ofile[i] matches Some(f) ==> f < ftable.len())
    &&& forall|f: usize| f < ftable.len() ==> #[trigger] refs(ofile, f) <= ftable[f as int].count()
}

/// The files released when the descriptors `ofile` are closed in order:
/// each when the descriptor that drops its last reference is closed.
pub open spec fn released_files(ofile: Seq<Option<usize>>, ftable: Seq<RcInner<File>>) -> Seq<File>
    decreases ofile.len(),
{
    if ofile.len() == 0 {
        Seq::empty()
    } else {
        let prev = released_files(ofile.drop_last(), ftable);
        match ofile.last() {
            Some(f) => if ftable[f as int].count() == refs(ofile, f) {
                prev.push(ftable[f as int].value())
            } else {
                prev
            },
            None => prev,
        }
    }
}

/// Close all open files of an exiting process, in descriptor order: every
/// descriptor is freed, each file loses one reference per descriptor that
/// named it, and the files whose last reference went are returned, to be
/// released.
pub fn close_all(ofile: &mut Vec<Option<usize>>, ftable: &mut Vec<RcInner<File>>) -> (released: Vec<File>)
    requires
        fds_counted(old(ofile)@, old(ftable)@),
    ensures
        final(ofile)@.len() == old(ofile)@.len(),
        forall|i: int| 0 <= i < old(ofile)@.len() ==> #[trigger] final(ofile)@[i] is None,
        final(ftable)@.len() == old(ftable)@.len(),
        forall|f: usize|
            f < old(ftable)@.len() ==> {
                &&& #[trigger] final(ftable)@[f as int].count() == old(ftable)@[f as int].count()
                    - refs(old(ofile)@, f)
                &&& if refs(old(ofile)@, f) > 0 && old(ftable)@[f as int].count() == refs(
                    old(ofile)@,
                    f,
                ) {
                    final(ftable)@[f as int].value().kind == FileKind::Empty
                } else {
                    final(ftable)@[f as int].value() == old(ftable)@[f as int].value()
                }
            },
        released@ == released_files(old(ofile)@, old(ftable)@),
{
    let ghost fds = ofile@;
    let ghost files = ftable@;
    let mut released: Vec<File> = Vec::new();
    let mut i: usize = 0;
    while i < ofile.len()
        invariant
            i <= ofile@.len(),
            ofile@.len() == fds.len(),
            fds_counted(fds, files),
            forall|j: int| 0 <= j < i ==> #[trigger] ofile@[j] is None,
            forall|j: int| i <= j < fds.len() ==> #[trigger] ofile@[j] == fds[j],
            ftable@.len() == files.len(),
            forall|f: usize|
                f < files.len() ==> {
                    &&& #[trigger] ftable@[f as int].count() == files[f as int].count() - refs(
                        fds.take(i as int),
                        f,
                    )
                    &&& if refs(fds.take(i as int), f) > 0 && files[f as int].count() == refs(
                        fds.take(i as int),
                        f,
                    ) {
                        ftable@[f as int].value().kind == FileKind::Empty
                    } else {
                        ftable@[f as int].value() == files[f as int].value()
                    }
                },
            released@ == released_files(fds.take(i as int), files),
        decreases fds.len() - i,
    {
        let ghost before = ftable@;
        assert(fds.take(i + 1).drop_last() =~= fds.take(i as int));
        match ofile[i] {
            Some(f) => {
                proof {
                    assert(fds[i as int] == Some(f));
                    lemma_refs_prefix(fds, i + 1, f);
                    assert(refs(fds.take(i + 1), f) == refs(fds.take(i as int), f) + 1);
                }
                ofile.set(i, None);
                match close(ftable, f) {
                    Some(file) => released.push(file),
                    None => {},
                }
            },
            None => {},
        }
        proof {
            assert(fds.take(i + 1).last() == fds[i as int]);
            assert forall|g: usize| g < files.len() implies {
                &&& #[trigger] ftable@[g as int].count() == files[g as int].count() - refs(
                    fds.take(i + 1),
                    g,
                )
                &&& if refs(fds.take(i + 1), g) > 0 && files[g as int].count() == refs(
                    fds.take(i + 1),
                    g,
                ) {
                    ftable@[g as int].value().kind == FileKind::Empty
                } else {
                    ftable@[g as int].value() == files[g as int].value()
                }
            } by {
                lemma_refs_prefix(fds, i + 1, g);
                lemma_refs_prefix(fds, i as int, g);
                if fds[i as int] != Some(g) {
                    assert(refs(fds.take(i + 1), g) == refs(fds.take(i as int), g));
                    assert(ftable@[g as int] == before[g as int]);
                }
            }
        }
        i = i + 1;
    }
    assert(fds.take(i as int) =~= fds);
    released
}

/// The child's descriptors in fork: a copy of the parent's, where each open
/// file gets one more reference per descriptor that names it.
pub fn fork_files(ofile: &Vec<Option<usize>>, ftable: &mut Vec<RcInner<File>>) -> (child: Vec<
    Option<usize>,
>)
    requires
        ofile@.len() == NOFILE,
        fds_ok(ofile@, old(ftable)@),
        forall|f: usize|
            f < old(ftable)@.len() ==> #[trigger] old(ftable)@[f as int].count() + NOFILE
                <= usize::MAX,
    ensures
        child@ == ofile@,
        final(ftable)@.len() == old(ftable)@.len(),
        forall|f: usize|
            f < old(ftable)@.len() ==> {
                &&& #[trigger] final(ftable)@[f as int].count() == old(ftable)@[f as int].count()
                    + refs(ofile@, f)
                &&& final(ftable)@[f as int].value() == old(ftable)@[f as int].value()
            },
{
    let mut child: Vec<Option<usize>> = Vec::new();
    let mut i: usize = 0;
    while i < ofile.len()
        invariant
            i <= ofile@.len(),
            ofile@.len() == NOFILE,
            child@ == ofile@.take(i as int),
            fds_ok(ofile@, old(ftable)@),
            ftable@.len() == old(ftable)@.len(),
            forall|f: usize|
                f < old(ftable)@.len() ==> #[trigger] old(ftable)@[f as int].count() + NOFILE
                    <= usize::MAX,
            forall|f: usize|
                f < old(ftable)@.len() ==> {
                    &&& #[trigger] ftable@[f as int].count() == old(ftable)@[f as int].count()
                        + refs(ofile@.take(i as int), f)
                    &&& ftable@[f as int].value() == old(ftable)@[f as int].value()
                },
        decreases ofile@.len() - i,
    {
        let ghost before = ftable@;
        assert(ofile@.take(i + 1).drop_last() =~= ofile@.take(i as int));
        match ofile[i] {
            Some(f) => {
                proof {
                    lemma_refs_bound(ofile@.take(i as int), f);
                    assert(old(ftable)@[f as int].count() >= 1);
                }
                dup(ftable, f);
            },
            None => {},
        }
        proof {
            assert(ofile@.take(i + 1).last() == ofile@[i as int]);
            assert forall|g: usize| g < old(ftable)@.len() implies {
                &&& #[trigger] ftable@[g as int].count() == old(ftable)@[g as int].count() + refs(
                    ofile@.take(i + 1),
                    g,
                )
                &&& ftable@[g as int].value() == old(ftable)@[g as int].value()
            } by {
                if ofile@[i as int] != Some(g) {
                    assert(refs(ofile@.take(i + 1), g) == refs(ofile@.take(i as int), g));
                    assert(ftable@[g as int] == before[g as int]);
                }
            }
        }
        child.push(ofile[i]);
        i = i + 1;
        assert(child@ =~= ofile@.take(i as int));
    }
    assert(ofile@.take(i as int) =~= ofile@);
    child
}

} // verus!
