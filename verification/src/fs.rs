//! In-memory inodes: the arithmetic of reading, writing and truncating a
//! file's blocks, and reference counting.
use vstd::prelude::*;
use crate::stat::{InodeType, Stat, type_code};

verus! {

/// block size
pub const BSIZE: usize = 1024;

/// direct block addresses in an inode
pub const NDIRECT: usize = 12;

/// block addresses in an indirect block
pub const NINDIRECT: usize = 256;

/// largest file, in blocks
pub const MAXFILE: usize = 268;

/// Directory is a file containing a sequence of dirent structures.
pub const DIRSIZ: usize = 14;

/// inodes per block (a disk inode is 64 bytes)
pub const IPB: u32 = 16;

/// on-disk inode structure
#[derive(Clone, Copy, Debug)]
pub struct Dinode {
    /// File type
    pub type_: i16,
    /// Major device number (T_DEVICE only)
    pub major: i16,
    /// Minor device number (T_DEVICE only)
    pub minor: i16,
    /// Number of links to inode in file system
    pub nlink: i16,
    /// Size of file (bytes)
    pub size: u32,
    /// Data block addresses
    pub addrs: [u32; 13],
}

/// The inode type a disk inode's type number stands for.
pub open spec fn type_of(t: i16) -> InodeType {
    if t == 1 {
        InodeType::Dir
    } else if t == 2 {
        InodeType::File
    } else if t == 3 {
        InodeType::Device
    } else {
        InodeType::Unknown
    }
}

/// in-memory copy of an inode
pub struct Inode {
    /// Device number
    pub dev: u32,
    /// Inode number
    pub inum: u32,
    /// Reference count
    pub ref_: i32,
    /// inode has been read from disk?
    pub valid: bool,
    pub type_: InodeType,
    pub major: i16,
    pub minor: i16,
    pub nlink: i16,
    pub size: u32,
    pub addrs: [u32; 13],
}

/// The nonzero block addresses of `s`, in order.
pub open spec fn nonzero(s: Seq<u32>) -> Seq<u32>
    decreases s.len(),
{
    if s.len() == 0 {
        Seq::empty()
    } else if s.last() != 0 {
        nonzero(s.drop_last()).push(s.last())
    } else {
        nonzero(s.drop_last())
    }
}

/// How many bytes a read of `n` bytes at `off` gets from a file of `size`
/// bytes: none when `off` is past the end or `off + n` overflows, else up
/// to the end of the file.
pub open spec fn read_len_spec(size: int, off: int, n: int) -> int {
    if off > size || off + n > usize::MAX {
        0
    } else if off + n > size {
        size - off
    } else {
        n
    }
}

/// One block's part of a file transfer: the index of the file block, the
/// offset in that block, and the number of bytes.
#[derive(Clone, Copy, Debug, PartialEq, Eq, Structural)]
pub struct Chunk {
    pub block: usize,
    pub offset: usize,
    pub len: usize,
}

/// What became of one block's part of an inode read.
#[derive(Clone, Copy, Debug, PartialEq, Eq, Structural)]
pub enum BlockIo {
    /// the block was mapped and its part copied
    Done,
    /// the block could not be mapped
    NoBlock,
    /// the copy to the destination failed
    CopyFailed,
}

/// The block part of a transfer at file offset `at`, with `rest` bytes
/// still to go: up to the end of the block, or of the transfer.
pub open spec fn chunk_at(at: int, rest: int) -> Chunk {
    Chunk {
        block: (at / BSIZE as int) as usize,
        offset: (at % BSIZE as int) as usize,
        len: (if rest < BSIZE - at % BSIZE as int {
            rest
        } else {
            BSIZE - at % BSIZE as int
        }) as usize,
    }
}

/// Where a transfer from file offset `off` starts a block part: at `off`,
/// and at each block boundary after it.
pub open spec fn chunk_start(off: int, p: int) -> bool {
    p == off || (p > off && p % BSIZE as int == 0)
}

/// A transfer from `off` that has reached `at` (short of `end`) takes its
/// next part from `at` to the end of the block, or to `end`; no part starts
/// inside it, and it ends at `end` or at a block boundary.
proof fn lemma_chunk_step(off: int, at: int, end: int)
    requires
        off <= at < end,
        chunk_start(off, at),
    ensures
        at + chunk_at(at, end - at).len == end || (at + chunk_at(at, end - at).len) % BSIZE as int == 0,
        forall|p: int| at < p < at + chunk_at(at, end - at).len ==> !chunk_start(off, p),
        0 < chunk_at(at, end - at).len <= end - at,
{
}

/// A block's part of a transfer: it stays inside one block.
pub open spec fn in_block(c: Chunk) -> bool {
    c.offset < BSIZE && 0 < c.len <= BSIZE - c.offset
}

impl Inode {
    /// The block that holds inode `inum`, given where the inodes start.
    pub fn iblock(inum: u32, inodestart: u32) -> (r: u32)
        requires
            inum / IPB + inodestart <= u32::MAX,
        ensures
            r == inum / IPB + inodestart,
    {
        inum / IPB + inodestart
    }

    /// Where inode `inum` lies in its block: its index among the block's
    /// inodes.
    pub fn index_in_block(inum: u32) -> (r: usize)
        ensures
            r == inum % IPB,
            r < IPB,
    {
        (inum % IPB) as usize
    }

    /// What locking the inode does to it: when it has not been read from
    /// disk yet, copy the disk inode `dip` in and mark it valid. A held
    /// reference is needed, and a disk inode read must have a type.
    pub fn load(&mut self, dip: &Dinode)
        requires
            old(self).ref_ >= 1,
            !old(self).valid ==> 1 <= dip.type_ <= 3,
        ensures
            final(self).valid,
            final(self).dev == old(self).dev,
            final(self).inum == old(self).inum,
            final(self).ref_ == old(self).ref_,
            old(self).valid ==> *final(self) == *old(self),
            !old(self).valid ==> {
                &&& final(self).type_ == type_of(dip.type_)
                &&& type_code(final(self).type_) == dip.type_
                &&& final(self).major == dip.major
                &&& final(self).minor == dip.minor
                &&& final(self).nlink == dip.nlink
                &&& final(self).size == dip.size
                &&& final(self).addrs == dip.addrs
            },
    {
        if !self.valid {
            self.major = dip.major;
            self.minor = dip.minor;
            self.nlink = dip.nlink;
            self.size = dip.size;
            self.addrs = dip.addrs;
            self.valid = true;
            self.type_ = if dip.type_ == 1 {
                InodeType::Dir
            } else if dip.type_ == 2 {
                InodeType::File
            } else {
                InodeType::Device
            };
        }
    }

    /// Increment the reference count.
    pub fn dup(&mut self)
        requires
            old(self).ref_ < i32::MAX,
        ensures
            *final(self) == (Inode { ref_: (old(self).ref_ + 1) as i32, ..*old(self) }),
    {
        self.ref_ = self.ref_ + 1;
    }

    /// Whether dropping this reference frees the inode: it is the last
    /// reference to an inode that was read from disk and has no links.
    pub fn put_frees(&self) -> (r: bool)
        ensures
            r == (self.ref_ == 1 && self.valid && self.nlink == 0),
    {
        self.ref_ == 1 && self.valid && self.nlink == 0
    }

    /// Drop a reference to an in-memory inode. If that was the last
    /// reference and the inode has no links to it, its content must have
    /// been truncated (see `trunc`): it gets no type and is no longer valid.
    pub fn put(&mut self)
        requires
            old(self).ref_ > i32::MIN,
        ensures
            *final(self) == (if old(self).ref_ == 1 && old(self).valid && old(self).nlink == 0 {
                Inode {
                    ref_: (old(self).ref_ - 1) as i32,
                    type_: InodeType::Unknown,
                    valid: false,
                    ..*old(self)
                }
            } else {
                Inode { ref_: (old(self).ref_ - 1) as i32, ..*old(self) }
            }),
    {
        if self.put_frees() {
            self.type_ = InodeType::Unknown;
            self.valid = false;
        }
        self.ref_ = self.ref_ - 1;
    }

    /// Truncate inode (discard contents): return the blocks to free, in
    /// order -- the nonzero direct blocks, then the nonzero entries of the
    /// indirect block, then the indirect block itself -- and clear the
    /// block addresses and the size. `indirect` is the content of the
    /// indirect block, when the inode has one.
    pub fn trunc(&mut self, indirect: &[u32]) -> (freed: Vec<u32>)
        requires
            old(self).addrs[12] != 0 ==> indirect@.len() == NINDIRECT,
        ensures
            freed@ == nonzero(old(self).addrs@.take(12)) + (if old(self).addrs[12] != 0 {
                nonzero(indirect@).push(old(self).addrs[12])
            } else {
                Seq::empty()
            }),
            forall|i: int| 0 <= i < 13 ==> final(self).addrs[i] == 0,
            final(self).size == 0,
            final(self).dev == old(self).dev,
            final(self).inum == old(self).inum,
            final(self).ref_ == old(self).ref_,
            final(self).valid == old(self).valid,
            final(self).type_ == old(self).type_,
            final(self).major == old(self).major,
            final(self).minor == old(self).minor,
            final(self).nlink == old(self).nlink,
    {
        let mut freed: Vec<u32> = Vec::new();
        let mut i: usize = 0;
        while i < NDIRECT
            invariant
                i <= NDIRECT,
                freed@ == nonzero(old(self).addrs@.take(i as int)),
                forall|j: int| 0 <= j < i ==> self.addrs[j] == 0,
                forall|j: int| i <= j < 13 ==> self.addrs[j] == old(self).addrs[j],
                self.dev == old(self).dev,
                self.inum == old(self).inum,
                self.ref_ == old(self).ref_,
                self.valid == old(self).valid,
                self.type_ == old(self).type_,
                self.major == old(self).major,
                self.minor == old(self).minor,
                self.nlink == old(self).nlink,
                self.size == old(self).size,
            decreases NDIRECT - i,
        {
            let a = self.addrs[i];
            assert(old(self).addrs@.take(i + 1).drop_last() =~= old(self).addrs@.take(i as int));
            if a != 0 {
                freed.push(a);
                self.addrs[i] = 0;
            }
            i = i + 1;
        }
        let ghost direct = freed@;
        if self.addrs[NDIRECT] != 0 {
            let mut j: usize = 0;
            while j < NINDIRECT
                invariant
                    j <= NINDIRECT,
                    indirect@.len() == NINDIRECT,
                    freed@ == direct + nonzero(indirect@.take(j as int)),
                decreases NINDIRECT - j,
            {
                let a = indirect[j];
                assert(indirect@.take(j + 1).drop_last() =~= indirect@.take(j as int));
                if a != 0 {
                    freed.push(a);
                    assert(freed@ =~= direct + nonzero(indirect@.take(j + 1)));
                } else {
                    assert(freed@ =~= direct + nonzero(indirect@.take(j + 1)));
                }
                j = j + 1;
            }
            assert(indirect@.take(NINDIRECT as int) =~= indirect@);
            freed.push(self.addrs[NDIRECT]);
            self.addrs[NDIRECT] = 0;
            assert(freed@ =~= direct + nonzero(indirect@).push(old(self).addrs[12]));
        } else {
            assert(freed@ =~= direct + Seq::<u32>::empty());
        }
        self.size = 0;
        freed
    }

    /// How many bytes a read of `n` bytes at `off` gets.
    pub fn read_len(&self, off: usize, n: usize) -> (r: usize)
        ensures
            r == read_len_spec(self.size as int, off as int, n as int),
    {
        let size = self.size as usize;
        match off.checked_add(n) {
            None => 0,
            Some(end) => {
                if off > size {
                    0
                } else if end > size {
                    size - off
                } else {
                    n
                }
            },
        }
    }

    /// Whether a write of `n` bytes at `off` is allowed: it must start
    /// within the file or at its end, and stay within the largest file.
    pub fn write_ok(&self, off: usize, n: usize) -> (r: bool)
        ensures
            r == (off <= self.size && off + n <= MAXFILE * BSIZE),
    {
        if off > self.size as usize {
            return false;
        }
        match off.checked_add(n) {
            None => false,
            Some(end) => end <= MAXFILE * BSIZE,
        }
    }

    /// After writing up to file offset `end`, the file grows to `end` when
    /// that is beyond its size.
    pub fn grow_to(&mut self, end: u32)
        ensures
            *final(self) == (Inode {
                size: if end > old(self).size {
                    end
                } else {
                    old(self).size
                },
                ..*old(self)
            }),
    {
        if end > self.size {
            self.size = end;
        }
    }

    /// Read data from inode: up to `n` bytes at file offset `off`, clipped
    /// to the end of the file, block by block. `io(c)` maps file block
    /// `c.block` and copies `c.len` bytes from offset `c.offset` in it to
    /// the destination, after the bytes already read. The read stops at a
    /// block that cannot be mapped; a failed copy fails it. Returns the
    /// bytes read.
    pub fn read<F: Fn(Chunk) -> BlockIo>(&self, off: usize, n: usize, io: F) -> (r: Result<usize, ()>)
        requires
            forall|c: Chunk| #[trigger] in_block(c) ==> call_requires(io, (c,)),
        ensures
            read_len_spec(self.size as int, off as int, n as int) == 0 ==> r == Ok::<usize, ()>(0),
            r matches Ok(tot) ==> {
                let len = read_len_spec(self.size as int, off as int, n as int);
                &&& tot <= len
                &&& forall|p: int|
                    off <= p < off + tot && chunk_start(off as int, p) ==> #[trigger] call_ensures(
                        io,
                        (chunk_at(p, off + len - p),),
                        BlockIo::Done,
                    )
                &&& tot < len ==> chunk_start(off as int, off + tot) && call_ensures(
                    io,
                    (chunk_at(off + tot, len - tot),),
                    BlockIo::NoBlock,
                )
            },
            r is Err ==> exists|t: int|
                #![trigger chunk_at(t, off + read_len_spec(self.size as int, off as int, n as int) - t)]
                {
                    &&& off <= t < off + read_len_spec(self.size as int, off as int, n as int)
                    &&& chunk_start(off as int, t)
                    &&& call_ensures(
                        io,
                        (chunk_at(t, off + read_len_spec(self.size as int, off as int, n as int) - t),),
                        BlockIo::CopyFailed,
                    )
                    &&& forall|p: int|
                        off <= p < t && chunk_start(off as int, p) ==> #[trigger] call_ensures(
                            io,
                            (chunk_at(p, off + read_len_spec(self.size as int, off as int, n as int) - p),),
                            BlockIo::Done,
                        )
                },
    {
        let len = self.read_len(off, n);
        let mut tot: usize = 0;
        let mut at: usize = off;
        while tot < len
            invariant
                tot <= len,
                len == read_len_spec(self.size as int, off as int, n as int),
                len > 0 ==> off + len <= usize::MAX,
                at == off + tot,
                tot < len ==> chunk_start(off as int, at as int),
                forall|c: Chunk| #[trigger] in_block(c) ==> call_requires(io, (c,)),
                forall|p: int|
                    off <= p < off + tot && chunk_start(off as int, p) ==> #[trigger] call_ensures(
                        io,
                        (chunk_at(p, off + len - p),),
                        BlockIo::Done,
                    ),
            decreases len - tot,
        {
            proof {
                lemma_chunk_step(off as int, at as int, off + len);
            }
            let in_blk = BSIZE - at % BSIZE;
            let m = if len - tot < in_blk {
                len - tot
            } else {
                in_blk
            };
            let c = Chunk { block: at / BSIZE, offset: at % BSIZE, len: m };
            assert(c == chunk_at(at as int, off + len - at));
            assert(in_block(c));
            match io(c) {
                BlockIo::Done => {},
                BlockIo::NoBlock => {
                    return Ok(tot);
                },
                BlockIo::CopyFailed => {
                    assert(call_ensures(io, (chunk_at(at as int, off + len - at),), BlockIo::CopyFailed));
                    return Err(());
                },
            }
            tot = tot + m;
            at = at + m;
        }
        Ok(tot)
    }

    /// Write data to inode: `n` bytes at file offset `off`, block by block.
    /// `io(c)` maps file block `c.block` (allocating it if need be) and
    /// copies `c.len` bytes into it at offset `c.offset`, from the source
    /// after the bytes already written; false when the block cannot be
    /// mapped or the copy fails, which stops the write. The write must start
    /// within the file or at its end and stay within the largest file, else
    /// Err(()). The file grows to the end of what was written. Returns the
    /// bytes written.
    pub fn write<F: Fn(Chunk) -> bool>(&mut self, off: usize, n: usize, io: F) -> (r: Result<usize, ()>)
        requires
            forall|c: Chunk| #[trigger] in_block(c) ==> call_requires(io, (c,)),
        ensures
            r is Err <==> !(off <= old(self).size && off + n <= MAXFILE * BSIZE),
            r is Err ==> *final(self) == *old(self),
            r matches Ok(tot) ==> {
                &&& tot <= n
                &&& forall|p: int|
                    off <= p < off + tot && chunk_start(off as int, p) ==> #[trigger] call_ensures(
                        io,
                        (chunk_at(p, off + n - p),),
                        true,
                    )
                &&& tot < n ==> chunk_start(off as int, off + tot) && call_ensures(
                    io,
                    (chunk_at(off + tot, n - tot),),
                    false,
                )
                &&& *final(self) == (Inode {
                    size: if off + tot > old(self).size {
                        (off + tot) as u32
                    } else {
                        old(self).size
                    },
                    ..*old(self)
                })
            },
    {
        if !self.write_ok(off, n) {
            return Err(());
        }
        let mut tot: usize = 0;
        let mut at: usize = off;
        let mut stopped = false;
        while tot < n && !stopped
            invariant
                tot <= n,
                at == off + tot,
                off + n <= MAXFILE * BSIZE,
                forall|c: Chunk| #[trigger] in_block(c) ==> call_requires(io, (c,)),
                tot < n ==> chunk_start(off as int, at as int),
                forall|p: int|
                    off <= p < off + tot && chunk_start(off as int, p) ==> #[trigger] call_ensures(
                        io,
                        (chunk_at(p, off + n - p),),
                        true,
                    ),
                stopped ==> tot < n && call_ensures(io, (chunk_at(off + tot, n - tot),), false),
            decreases n - tot + if stopped {
                0int
            } else {
                1int
            },
        {
            let in_blk = BSIZE - at % BSIZE;
            let m = if n - tot < in_blk {
                n - tot
            } else {
                in_blk
            };
            proof {
                lemma_chunk_step(off as int, at as int, off + n);
            }
            let c = Chunk { block: at / BSIZE, offset: at % BSIZE, len: m };
            assert(c == chunk_at(at as int, off + n - at));
            assert(in_block(c));
            if io(c) {
                tot = tot + m;
                at = at + m;
            } else {
                stopped = true;
            }
        }
        self.grow_to(at as u32);
        Ok(tot)
    }

    /// Copy stat information from inode.
    pub fn stat(&self) -> (st: Stat)
        ensures
            st.dev == self.dev as i32,
            st.ino == self.inum,
            st.type_ == type_code(self.type_),
            st.nlink == self.nlink,
            st.size == self.size as u64,
    {
        Stat {
            dev: self.dev as i32,
            ino: self.inum,
            type_: self.type_.code(),
            nlink: self.nlink,
            size: self.size as u64,
        }
    }
}

/// The block parts of a transfer of `n` bytes at file offset `off`: each
/// part stays inside one block, the parts follow each other, and together
/// they cover the `n` bytes.
pub fn chunks(off: usize, n: usize) -> (r: Vec<Chunk>)
    requires
        off + n <= usize::MAX,
    ensures
        forall|k: int| 0 <= k < r@.len() ==> {
            &&& (#[trigger] r@[k]).offset < BSIZE
            &&& 0 < r@[k].len <= BSIZE - r@[k].offset
        },
        r@.len() > 0 ==> r@[0].block * BSIZE + r@[0].offset == off,
        forall|k: int|
            0 <= k < r@.len() - 1 ==> (#[trigger] r@[k]).offset + r@[k].len == BSIZE,
        forall|k: int|
            0 <= k < r@.len() - 1 ==> #[trigger] r@[k + 1].block * BSIZE + r@[k + 1].offset
                == r@[k].block * BSIZE + r@[k].offset + r@[k].len,
        r@.len() == 0 <==> n == 0,
        r@.len() > 0 ==> r@.last().block * BSIZE + r@.last().offset + r@.last().len == off + n,
{
    let mut r: Vec<Chunk> = Vec::new();
    let mut tot: usize = 0;
    let mut at: usize = off;
    while tot < n
        invariant
            tot <= n,
            at == off + tot,
            off + n <= usize::MAX,
            forall|k: int| 0 <= k < r@.len() ==> {
                &&& (#[trigger] r@[k]).offset < BSIZE
                &&& 0 < r@[k].len <= BSIZE - r@[k].offset
            },
            r@.len() > 0 ==> r@[0].block * BSIZE + r@[0].offset == off,
            forall|k: int|
                0 <= k < r@.len() - 1 ==> (#[trigger] r@[k]).offset + r@[k].len == BSIZE,
            forall|k: int|
                0 <= k < r@.len() - 1 ==> #[trigger] r@[k + 1].block * BSIZE + r@[k + 1].offset
                    == r@[k].block * BSIZE + r@[k].offset + r@[k].len,
            r@.len() == 0 <==> tot == 0,
            r@.len() > 0 ==> r@.last().block * BSIZE + r@.last().offset + r@.last().len == at,
            r@.len() > 0 && tot < n ==> r@.last().offset + r@.last().len == BSIZE,
        decreases n - tot,
    {
        let in_block = BSIZE - at % BSIZE;
        let m = if n - tot < in_block {
            n - tot
        } else {
            in_block
        };
        let c = Chunk { block: at / BSIZE, offset: at % BSIZE, len: m };
        assert(c.block * BSIZE + c.offset == at) by (nonlinear_arith)
            requires
                c.block == at / 1024,
                c.offset == at % 1024,
        ;
        r.push(c);
        tot = tot + m;
        at = at + m;
    }
    r
}

/// A disk inode's type number and the in-memory type stand for each other:
/// 1 is a directory, 2 a file, 3 a device, and each type's number reads
/// back as that type.
pub proof fn lemma_type_numbers(t: i16, x: InodeType)
    ensures
        type_of(1) == InodeType::Dir,
        type_of(2) == InodeType::File,
        type_of(3) == InodeType::Device,
        1 <= t <= 3 ==> type_code(type_of(t)) == t,
        x != InodeType::Unknown ==> type_of(type_code(x)) == x,
{
}

} // verus!
