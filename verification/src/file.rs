//! Support functions for system calls that involve file descriptors: the
//! file table, and what reading, writing and closing a file comes to.
use vstd::prelude::*;
use crate::fcntl::{OMode, O_WRONLY, O_RDWR, O_TRUNC};
use crate::fs::Inode;
use crate::rc::RcInner;
use crate::stat::InodeType;

verus! {

/// maximum major device number
pub const NDEV: i16 = 10;

/// major device number of the console
pub const CONSOLE: i16 = 1;

/// open files per system
pub const NFILE: usize = 100;

/// The most bytes one inode write transaction writes: a few blocks at a
/// time, to stay under the maximum log transaction size, including i-node,
/// indirect block, allocation blocks, and 2 blocks of slop for non-aligned
/// writes ((MAXOPBLOCKS - 1 - 1 - 2) / 2 blocks of BSIZE bytes).
pub const MAX_WRITE: i32 = 3072;

/// What an open file refers to; pipes and inodes by their handle.
#[derive(Clone, Copy, Debug, PartialEq, Eq, Structural)]
pub enum FileKind {
    Empty,
    Pipe(usize),
    Inode { ip: usize, off: u32 },
    Device { ip: usize, major: i16 },
}

/// An open file.
#[derive(Clone, Copy, Debug, PartialEq, Eq, Structural)]
pub struct File {
    pub kind: FileKind,
    pub readable: bool,
    pub writable: bool,
}

/// Where a read or write of a file goes.
#[derive(Clone, Copy, Debug, PartialEq, Eq, Structural)]
pub enum FileOp {
    /// Not allowed: the call returns -1.
    Fail,
    /// To the pipe with this handle.
    Pipe(usize),
    /// To the device with this major number.
    Device(i16),
    /// To the inode with this handle, at this offset.
    Inode(usize, u32),
}

/// What closing the last reference to a file releases.
#[derive(Clone, Copy, Debug, PartialEq, Eq, Structural)]
pub enum Release {
    Nothing,
    /// The end of this pipe: its write end when the flag is set.
    Pipe(usize, bool),
    /// A reference to this inode.
    Inode(usize),
}

/// Whether the device switch has a device with this major number: only
/// the console.
pub open spec fn has_device(major: i16) -> bool {
    major == CONSOLE
}

/// What a read (or write) of `f` goes to, given that the file allows it.
pub open spec fn op_of(f: File) -> FileOp {
    match f.kind {
        FileKind::Pipe(p) => FileOp::Pipe(p),
        FileKind::Device { major, .. } => if has_device(major) {
            FileOp::Device(major)
        } else {
            FileOp::Fail
        },
        FileKind::Inode { ip, off } => FileOp::Inode(ip, off),
        FileKind::Empty => FileOp::Fail,
    }
}

impl File {
    /// An unused file structure.
    pub fn none() -> (f: File)
        ensures
            f.kind == FileKind::Empty,
            !f.readable,
            !f.writable,
    {
        File { kind: FileKind::Empty, readable: false, writable: false }
    }

    /// Where a read of this file goes; -1 when it is not readable.
    pub fn read(&self) -> (op: FileOp)
        requires
            self.readable ==> self.kind != FileKind::Empty,
        ensures
            op == (if self.readable {
                op_of(*self)
            } else {
                FileOp::Fail
            }),
            self.readable ==> (self.kind matches FileKind::Pipe(p) ==> op == FileOp::Pipe(p)),
            self.readable ==> (self.kind matches FileKind::Inode { ip, off } ==> op
                == FileOp::Inode(ip, off)),
            self.readable ==> (self.kind matches FileKind::Device { major, .. } ==> op == (if major
                == CONSOLE {
                FileOp::Device(major)
            } else {
                FileOp::Fail
            })),
            !self.readable ==> op == FileOp::Fail,
    {
        if !self.readable {
            return FileOp::Fail;
        }
        self.op()
    }

    /// Where a write of this file goes; -1 when it is not writable.
    pub fn write(&self) -> (op: FileOp)
        requires
            self.writable ==> self.kind != FileKind::Empty,
        ensures
            op == (if self.writable {
                op_of(*self)
            } else {
                FileOp::Fail
            }),
            self.writable ==> (self.kind matches FileKind::Pipe(p) ==> op == FileOp::Pipe(p)),
            self.writable ==> (self.kind matches FileKind::Inode { ip, off } ==> op
                == FileOp::Inode(ip, off)),
            self.writable ==> (self.kind matches FileKind::Device { major, .. } ==> op == (if major
                == CONSOLE {
                FileOp::Device(major)
            } else {
                FileOp::Fail
            })),
            !self.writable ==> op == FileOp::Fail,
    {
        if !self.writable {
            return FileOp::Fail;
        }
        self.op()
    }

    fn op(&self) -> (op: FileOp)
        ensures
            op == op_of(*self),
    {
        match self.kind {
            FileKind::Pipe(p) => FileOp::Pipe(p),
            FileKind::Device { major, .. } => {
                if major == CONSOLE {
                    FileOp::Device(major)
                } else {
                    FileOp::Fail
                }
            },
            FileKind::Inode { ip, off } => FileOp::Inode(ip, off),
            FileKind::Empty => FileOp::Fail,
        }
    }

    /// After an inode read or write transferred `r` bytes, the offset moves
    /// past them.
    pub fn advance(&mut self, r: i32)
        requires
            old(self).kind matches FileKind::Inode { off, .. } ==> (r > 0 ==> off + r <= u32::MAX),
        ensures
            final(self).readable == old(self).readable,
            final(self).writable == old(self).writable,
            final(self).kind == (match old(self).kind {
                FileKind::Inode { ip, off } => if r > 0 {
                    FileKind::Inode { ip, off: (off + r) as u32 }
                } else {
                    old(self).kind
                },
                k => k,
            }),
    {
        match self.kind {
            FileKind::Inode { ip, off } => {
                if r > 0 {
                    self.kind = FileKind::Inode { ip, off: off + r as u32 };
                }
            },
            _ => {},
        }
    }

    /// One transaction of an inode write, of `n1` bytes (as `w.next()`
    /// gave), that wrote `r`: the file offset moves past the bytes written,
    /// and the write loop records the result, failing on a short write.
    pub fn write_step(&mut self, w: &mut InodeWrite, n1: i32, r: i32)
        requires
            0 <= old(w).i,
            old(w).i + n1 <= old(w).n,
            old(self).kind matches FileKind::Inode { off, .. } ==> (r > 0 ==> off + r <= u32::MAX),
        ensures
            final(self).readable == old(self).readable,
            final(self).writable == old(self).writable,
            final(self).kind == (match old(self).kind {
                FileKind::Inode { ip, off } => if r > 0 {
                    FileKind::Inode { ip, off: (off + r) as u32 }
                } else {
                    old(self).kind
                },
                k => k,
            }),
            final(w).n == old(w).n,
            r != n1 ==> final(w).failed && final(w).i == old(w).i,
            r == n1 ==> final(w).failed == old(w).failed && final(w).i == old(w).i + r,
    {
        self.advance(r);
        w.record(n1, r);
    }

    /// Write `n` bytes to this inode file at its offset, a few blocks at a
    /// time: `writei(off, n1)` writes `n1` bytes (at most MAX_WRITE) at
    /// offset `off` inside one log transaction and returns the bytes it
    /// wrote, or -1. The offset moves past the bytes written. Returns `n`
    /// when every transaction wrote all its bytes, else -1 (the loop stops
    /// at the first short write).
    pub fn write_inode<F: Fn(u32, i32) -> i32>(&mut self, n: i32, writei: F) -> (r: i32)
        requires
            n >= 0,
            old(self).kind matches FileKind::Inode { off, .. } && off + n <= u32::MAX,
            forall|o: u32, k: i32| 0 < k <= MAX_WRITE ==> #[trigger] call_requires(writei, (o, k)),
            forall|o: u32, k: i32, w: i32| #[trigger] call_ensures(writei, (o, k), w) ==> w <= k,
        ensures
            r == n || r == -1,
            final(self).readable == old(self).readable,
            final(self).writable == old(self).writable,
            old(self).kind matches FileKind::Inode { ip: ip0, off: off0 } && final(self).kind
                matches FileKind::Inode { ip, off } && ip == ip0 && off0 <= off <= off0 + n && (r
                == n <==> off == off0 + n),
            r == n ==> forall|s: int|
                0 <= s < n && s % MAX_WRITE as int == 0 ==> #[trigger] call_ensures(
                    writei,
                    ((old(self).kind->Inode_off + s) as u32, write_len(n as int, s)),
                    write_len(n as int, s),
                ),
            r == -1 ==> exists|s: int, x: i32|
                #![trigger call_ensures(writei, ((old(self).kind->Inode_off + s) as u32, write_len(n as int, s)), x)]
                {
                    &&& 0 <= s < n
                    &&& s % MAX_WRITE as int == 0
                    &&& call_ensures(
                        writei,
                        ((old(self).kind->Inode_off + s) as u32, write_len(n as int, s)),
                        x,
                    )
                    &&& x != write_len(n as int, s)
                    &&& final(self).kind->Inode_off == old(self).kind->Inode_off + s + if x > 0 {
                        x as int
                    } else {
                        0
                    }
                    &&& forall|t: int|
                        0 <= t < s && t % MAX_WRITE as int == 0 ==> #[trigger] call_ensures(
                            writei,
                            ((old(self).kind->Inode_off + t) as u32, write_len(n as int, t)),
                            write_len(n as int, t),
                        )
                },
    {
        let ghost ip0 = old(self).kind->Inode_ip;
        let ghost off0 = old(self).kind->Inode_off;
        let ghost mut last: i32 = 0;
        let mut w = InodeWrite::new(n);
        loop
            invariant
                self.readable == old(self).readable,
                self.writable == old(self).writable,
                self.kind matches FileKind::Inode { ip, .. } && ip == ip0,
                off0 + n <= u32::MAX,
                w.n == n,
                0 <= w.i <= n,
                w.failed ==> w.i < n,
                !w.failed ==> self.kind->Inode_off == off0 + w.i,
                w.failed ==> off0 + w.i <= self.kind->Inode_off < off0 + n,
                forall|o: u32, k: i32| 0 < k <= MAX_WRITE ==> #[trigger] call_requires(writei, (o, k)),
                forall|o: u32, k: i32, x: i32| #[trigger] call_ensures(writei, (o, k), x) ==> x <= k,
                w.i == n || w.i as int % MAX_WRITE as int == 0,
                forall|t: int|
                    0 <= t < w.i && t % MAX_WRITE as int == 0 ==> #[trigger] call_ensures(
                        writei,
                        ((off0 + t) as u32, write_len(n as int, t)),
                        write_len(n as int, t),
                    ),
                w.failed ==> call_ensures(writei, ((off0 + w.i) as u32, write_len(n as int, w.i as int)), last)
                    && last != write_len(n as int, w.i as int) && self.kind->Inode_off == off0 + w.i
                    + if last > 0 {
                    last as int
                } else {
                    0
                },
            ensures
                w.i == n || w.i as int % MAX_WRITE as int == 0,
                forall|t: int|
                    0 <= t < w.i && t % MAX_WRITE as int == 0 ==> #[trigger] call_ensures(
                        writei,
                        ((off0 + t) as u32, write_len(n as int, t)),
                        write_len(n as int, t),
                    ),
                w.failed ==> call_ensures(writei, ((off0 + w.i) as u32, write_len(n as int, w.i as int)), last)
                    && last != write_len(n as int, w.i as int) && self.kind->Inode_off == off0 + w.i
                    + if last > 0 {
                    last as int
                } else {
                    0
                },
                self.readable == old(self).readable,
                self.writable == old(self).writable,
                self.kind matches FileKind::Inode { ip, .. } && ip == ip0,
                w.n == n,
                0 <= w.i <= n,
                w.failed ==> w.i < n,
                !w.failed ==> self.kind->Inode_off == off0 + w.i && w.i == n,
                w.failed ==> off0 + w.i <= self.kind->Inode_off < off0 + n,
            decreases 2 * (n - w.i) + if w.failed {
                0int
            } else {
                1int
            },
        {
            let n1 = match w.next() {
                None => break,
                Some(k) => k,
            };
            let off = match self.kind {
                FileKind::Inode { off, .. } => off,
                _ => 0,
            };
            assert(n1 == write_len(n as int, w.i as int));
            assert(off == off0 + w.i);
            let r = writei(off, n1);
            let ghost i_before = w.i;
            self.write_step(&mut w, n1, r);
            proof {
                last = r;
                assert forall|t: int| 0 <= t < w.i && t % MAX_WRITE as int == 0 implies #[trigger] call_ensures(
                    writei,
                    ((off0 + t) as u32, write_len(n as int, t)),
                    write_len(n as int, t),
                ) by {
                    if t >= i_before {
                        assert(t == i_before);
                    }
                }
            }
        }
        proof {
            if w.failed {
                assert(call_ensures(writei, ((off0 + w.i) as u32, write_len(n as int, w.i as int)), last));
            }
        }
        w.result()
    }

    /// What dropping the last reference to this file releases.
    pub fn drop(self) -> (r: Release)
        ensures
            r == (match self.kind {
                FileKind::Pipe(p) => Release::Pipe(p, self.writable),
                FileKind::Inode { ip, .. } => Release::Inode(ip),
                FileKind::Device { ip, .. } => Release::Inode(ip),
                FileKind::Empty => Release::Nothing,
            }),
    {
        match self.kind {
            FileKind::Pipe(p) => Release::Pipe(p, self.writable),
            FileKind::Inode { ip, .. } => Release::Inode(ip),
            FileKind::Device { ip, .. } => Release::Inode(ip),
            FileKind::Empty => Release::Nothing,
        }
    }

    /// Get metadata about the file: only inodes and devices have it; the
    /// inode handle to stat.
    pub fn stat(&self) -> (r: Result<usize, ()>)
        ensures
            r == (match self.kind {
                FileKind::Inode { ip, .. } => Ok(ip),
                FileKind::Device { ip, .. } => Ok(ip),
                _ => Err(()),
            }),
    {
        match self.kind {
            FileKind::Inode { ip, .. } => Ok(ip),
            FileKind::Device { ip, .. } => Ok(ip),
            _ => Err(()),
        }
    }
}

/// Allocate a file structure: the first unreferenced slot of the file
/// table gets one reference.
pub fn filealloc(ftable: &mut Vec<RcInner<File>>) -> (r: Option<usize>)
    ensures
        final(ftable)@.len() == old(ftable)@.len(),
        match r {
            Some(i) => {
                &&& i < old(ftable)@.len()
                &&& old(ftable)@[i as int].count() == 0
                &&& forall|j: int| 0 <= j < i ==> old(ftable)@[j].count() != 0
                &&& final(ftable)@[i as int].count() == 1
                &&& final(ftable)@[i as int].value() == old(ftable)@[i as int].value()
                &&& forall|j: int|
                    0 <= j < old(ftable)@.len() && j != i ==> final(ftable)@[j] == old(ftable)@[j]
            },
            None => {
                &&& forall|j: int| 0 <= j < old(ftable)@.len() ==> old(ftable)@[j].count() != 0
                &&& final(ftable)@ == old(ftable)@
            },
        },
{
    let mut i: usize = 0;
    while i < ftable.len()
        invariant
            i <= ftable@.len(),
            ftable@ == old(ftable)@,
            forall|j: int| 0 <= j < i ==> ftable@[j].count() != 0,
        decreases ftable@.len() - i,
    {
        if RcInner::strong(&ftable[i]) == 0 {
            RcInner::inc_strong(&mut ftable[i]);
            return Some(i);
        }
        i = i + 1;
    }
    None
}

/// Increment the reference count of file `i`.
pub fn dup(ftable: &mut Vec<RcInner<File>>, i: usize)
    requires
        i < old(ftable)@.len(),
        old(ftable)@[i as int].count() >= 1,
        old(ftable)@[i as int].count() < usize::MAX,
    ensures
        final(ftable)@.len() == old(ftable)@.len(),
        final(ftable)@[i as int].count() == old(ftable)@[i as int].count() + 1,
        final(ftable)@[i as int].value() == old(ftable)@[i as int].value(),
        forall|j: int| 0 <= j < old(ftable)@.len() && j != i ==> final(ftable)@[j] == old(ftable)@[j],
{
    RcInner::inc_strong(&mut ftable[i]);
}

/// Close file `i`: drop a reference; when it was the last one, the slot is
/// reset and the file is returned, to release what it refers to.
pub fn close(ftable: &mut Vec<RcInner<File>>, i: usize) -> (r: Option<File>)
    requires
        i < old(ftable)@.len(),
        old(ftable)@[i as int].count() >= 1,
    ensures
        final(ftable)@.len() == old(ftable)@.len(),
        forall|j: int| 0 <= j < old(ftable)@.len() && j != i ==> final(ftable)@[j] == old(ftable)@[j],
        final(ftable)@[i as int].count() == old(ftable)@[i as int].count() - 1,
        old(ftable)@[i as int].count() == 1 ==> {
            &&& r == Some(old(ftable)@[i as int].value())
            &&& final(ftable)@[i as int].value().kind == FileKind::Empty
        },
        old(ftable)@[i as int].count() > 1 ==> {
            &&& r is None
            &&& final(ftable)@[i as int].value() == old(ftable)@[i as int].value()
        },
{
    if RcInner::strong(&ftable[i]) == 1 {
        let f = *ftable[i].deref();
        ftable.set(i, RcInner::new(File::none()));
        Some(f)
    } else {
        RcInner::dec_strong(&mut ftable[i]);
        None
    }
}

/// Whether an open of inode `ip` with `omode` may go on, and if so whether
/// it truncates the file: a directory (that was not just created) opens
/// only read-only, a device needs a valid major number, and O_TRUNC
/// truncates plain files.
pub fn open_check(omode: OMode, created: bool, ip: &Inode) -> (r: Result<bool, ()>)
    ensures
        r is Err <==> ((!created && ip.type_ == InodeType::Dir && omode.0 != 0) || (ip.type_
            == InodeType::Device && (ip.major < 0 || ip.major >= NDEV))),
        r matches Ok(t) ==> t == (omode.0 & O_TRUNC != 0 && ip.type_ == InodeType::File),
{
    if !created && ip.type_ == InodeType::Dir && omode.bits() != 0 {
        return Err(());
    }
    if ip.type_ == InodeType::Device && (ip.major < 0 || ip.major >= NDEV) {
        return Err(());
    }
    Ok(omode.intersects(OMode(O_TRUNC)) && ip.type_ == InodeType::File)
}

/// The file that opening inode `ip` (handle `id`) with `omode` makes: a
/// device file for devices, else an inode file at offset 0; readable
/// unless write-only, writable when write-only or read-write.
pub open spec fn opened(omode: OMode, id: usize, ip: Inode) -> File {
    File {
        kind: if ip.type_ == InodeType::Device {
            FileKind::Device { ip: id, major: ip.major }
        } else {
            FileKind::Inode { ip: id, off: 0 }
        },
        readable: omode.0 & O_WRONLY == 0,
        writable: omode.0 & (O_WRONLY | O_RDWR) != 0,
    }
}

/// The file that opening inode `ip` (handle `id`) with `omode` makes.
pub fn open_file(omode: OMode, id: usize, ip: &Inode) -> (f: File)
    ensures
        f == opened(omode, id, *ip),
        f.readable == (omode.0 & O_WRONLY == 0),
        f.writable == (omode.0 & (O_WRONLY | O_RDWR) != 0),
        ip.type_ != InodeType::Device ==> f.kind == (FileKind::Inode { ip: id, off: 0 }),
{
    File {
        kind: if ip.type_ == InodeType::Device {
            FileKind::Device { ip: id, major: ip.major }
        } else {
            FileKind::Inode { ip: id, off: 0 }
        },
        readable: !omode.intersects(OMode(O_WRONLY)),
        writable: omode.intersects(OMode(O_WRONLY | O_RDWR)),
    }
}

/// The bytes that the transaction of an inode write of `n` bytes that
/// starts at byte `s` of it writes: MAX_WRITE, or what is left.
pub open spec fn write_len(n: int, s: int) -> i32 {
    if n - s > MAX_WRITE {
        MAX_WRITE
    } else {
        (n - s) as i32
    }
}

/// The write loop of an inode file: write a few blocks at a time, and stop
/// at the first short write.
pub struct InodeWrite {
    /// bytes asked for
    pub n: i32,
    /// bytes written
    pub i: i32,
    /// a write came back short
    pub failed: bool,
}

impl InodeWrite {
    pub fn new(n: i32) -> (w: InodeWrite)
        ensures
            w.n == n,
            w.i == 0,
            !w.failed,
    {
        InodeWrite { n, i: 0, failed: false }
    }

    /// How many bytes the next transaction writes, if the loop goes on.
    pub fn next(&self) -> (r: Option<i32>)
        ensures
            r == (if self.failed || self.i >= self.n {
                None
            } else if self.n - self.i > MAX_WRITE {
                Some(MAX_WRITE)
            } else {
                Some((self.n - self.i) as i32)
            }),
    {
        if self.failed || self.i >= self.n {
            return None;
        }
        let rest = self.n as i64 - self.i as i64;
        if rest > MAX_WRITE as i64 {
            Some(MAX_WRITE)
        } else {
            Some(rest as i32)
        }
    }

    /// Record that a transaction asked to write `n1` bytes wrote `r`.
    pub fn record(&mut self, n1: i32, r: i32)
        requires
            0 <= old(self).i,
            old(self).i + n1 <= old(self).n,
        ensures
            final(self).n == old(self).n,
            r != n1 ==> final(self).failed && final(self).i == old(self).i,
            r == n1 ==> final(self).failed == old(self).failed && final(self).i == old(self).i + r,
    {
        if r != n1 {
            self.failed = true;
        } else {
            self.i = self.i + r;
        }
    }

    /// The result of the write: all n bytes, or -1.
    pub fn result(&self) -> (r: i32)
        ensures
            r == (if self.i == self.n {
                self.n as int
            } else {
                -1
            }),
    {
        if self.i == self.n {
            self.n
        } else {
            -1
        }
    }
}

/// Reads and writes of an open file go where its kind says, when the file
/// allows them: a pipe file to its pipe, an inode file to its inode at its
/// offset, a device file to the console when its major number is the
/// console's; an empty file nowhere.
pub proof fn lemma_file_dispatch(f: File)
    ensures
        f.kind matches FileKind::Pipe(p) ==> op_of(f) == FileOp::Pipe(p),
        f.kind matches FileKind::Inode { ip, off } ==> op_of(f) == FileOp::Inode(ip, off),
        f.kind matches FileKind::Device { major, .. } ==> (op_of(f) == FileOp::Device(major)
            <==> major == 1),
        f.kind matches FileKind::Device { major, .. } ==> (op_of(f) == FileOp::Fail <==> major != 1),
        f.kind == FileKind::Empty ==> op_of(f) == FileOp::Fail,
{
}

/// The open mode alone decides whether a new file is readable and
/// writable: readable unless opened write-only, writable when opened
/// write-only or read-write; creating or truncating changes neither.
pub proof fn lemma_open_modes(m: i32, id: usize, ip: Inode)
    ensures
        opened(OMode(0), id, ip).readable && !opened(OMode(0), id, ip).writable,
        !opened(OMode(1), id, ip).readable && opened(OMode(1), id, ip).writable,
        opened(OMode(2), id, ip).readable && opened(OMode(2), id, ip).writable,
        opened(OMode(m | 0x200), id, ip).readable == opened(OMode(m), id, ip).readable,
        opened(OMode(m | 0x400), id, ip).readable == opened(OMode(m), id, ip).readable,
        opened(OMode(m | 0x200), id, ip).writable == opened(OMode(m), id, ip).writable,
        opened(OMode(m | 0x400), id, ip).writable == opened(OMode(m), id, ip).writable,
        m & 1 == 0 ==> opened(OMode(m), id, ip).readable,
        m & 1 != 0 ==> !opened(OMode(m), id, ip).readable,
        m & 3 != 0 <==> opened(OMode(m), id, ip).writable,
{
    assert((m | 0x200i32) & 1 == m & 1) by (bit_vector);
    assert((m | 0x400i32) & 1 == m & 1) by (bit_vector);
    assert((m | 0x200i32) & 3 == m & 3) by (bit_vector);
    assert((m | 0x400i32) & 3 == m & 3) by (bit_vector);
    assert(0i32 & 1 == 0 && 0i32 & 3 == 0 && 1i32 & 1 == 1 && 1i32 & 3 != 0 && 2i32 & 1 == 0
        && 2i32 & 3 != 0) by (bit_vector);
    assert(1i32 | 2i32 == 3) by (bit_vector);
}

} // verus!
