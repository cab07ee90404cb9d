//! Pipes: a bounded byte queue between a writing and a reading file.
//!
//! The buffer holds `PIPESIZE` bytes; `nread` and `nwrite` count the bytes
//! read and written so far, so the bytes in the pipe are those from
//! `nread` up to `nwrite`, stored at their count modulo `PIPESIZE`.
use vstd::prelude::*;

verus! {

/// Size of a pipe's buffer.
pub const PIPESIZE: usize = 512;

/// The state of a pipe, as its lock protects it.
pub struct Pipe {
    pub data: Vec<u8>,
    /// number of bytes read
    pub nread: u32,
    /// number of bytes written
    pub nwrite: u32,
    /// read fd is still open
    pub readopen: bool,
    /// write fd is still open
    pub writeopen: bool,
}

/// What a writer finds when it wants to write its next byte.
pub enum WriteStep {
    /// The read end is closed or the writer was killed: the write fails.
    Fail,
    /// The buffer is full: wake readers and wait.
    Wait,
    /// There is room for one more byte.
    Ready,
}

/// What a reader finds when it starts reading.
pub enum ReadStep {
    /// The reader was killed while waiting: the read fails.
    Fail,
    /// Nothing to read yet, but a writer may still write: wait.
    Wait,
    /// Bytes are there, or no writer is left: read what there is.
    Ready,
}

impl Pipe {
    /// The counters are ordered and the pending bytes fit the buffer.
    pub open spec fn wf(&self) -> bool {
        &&& self.data@.len() == PIPESIZE
        &&& self.nread <= self.nwrite <= self.nread + PIPESIZE
    }

    /// The bytes in the pipe, oldest first.
    pub open spec fn contents(&self) -> Seq<u8> {
        Seq::new(
            (self.nwrite - self.nread) as nat,
            |k: int| self.data@[(self.nread + k) % PIPESIZE as int],
        )
    }

    /// A fresh pipe, open at both ends.
    pub fn new() -> (p: Pipe)
        ensures
            p.wf(),
            p.contents() == Seq::<u8>::empty(),
            p.nread == 0,
            p.nwrite == 0,
            p.readopen,
            p.writeopen,
    {
        let mut data: Vec<u8> = Vec::new();
        let mut k: usize = 0;
        while k < PIPESIZE
            invariant
                k <= PIPESIZE,
                data@.len() == k,
            decreases PIPESIZE - k,
        {
            data.push(0);
            k = k + 1;
        }
        let p = Pipe { data, nread: 0, nwrite: 0, readopen: true, writeopen: true };
        assert(p.contents() =~= Seq::<u8>::empty());
        p
    }

    /// Whether the buffer is full.
    pub fn is_full(&self) -> (r: bool)
        requires
            self.wf(),
            self.nread + PIPESIZE <= u32::MAX,
        ensures
            r == (self.contents().len() == PIPESIZE),
    {
        self.nwrite == self.nread + (PIPESIZE as u32)
    }

    /// Whether the buffer is empty.
    pub fn is_empty(&self) -> (r: bool)
        requires
            self.wf(),
        ensures
            r == (self.contents().len() == 0),
    {
        self.nread == self.nwrite
    }

    /// Decide the next step of a write: fail when the read end is closed or
    /// the writer is killed, wait when the buffer is full.
    pub fn write_step(&self, killed: bool) -> (step: WriteStep)
        requires
            self.wf(),
            self.nread + PIPESIZE <= u32::MAX,
        ensures
            step is Fail <==> (!self.readopen || killed),
            step is Wait <==> (self.readopen && !killed && self.contents().len() == PIPESIZE),
            step is Ready <==> (self.readopen && !killed && self.contents().len() < PIPESIZE),
    {
        if !self.readopen || killed {
            WriteStep::Fail
        } else if self.is_full() {
            WriteStep::Wait
        } else {
            WriteStep::Ready
        }
    }

    /// Decide the first step of a read: wait while the pipe is empty and a
    /// writer is left, unless killed.
    pub fn read_step(&self, killed: bool) -> (step: ReadStep)
        requires
            self.wf(),
        ensures
            step is Wait <==> (self.contents().len() == 0 && self.writeopen && !killed),
            step is Fail <==> (self.contents().len() == 0 && self.writeopen && killed),
            step is Ready <==> (self.contents().len() > 0 || !self.writeopen),
    {
        if self.is_empty() && self.writeopen {
            if killed {
                ReadStep::Fail
            } else {
                ReadStep::Wait
            }
        } else {
            ReadStep::Ready
        }
    }

    /// Append one byte.
    pub fn put(&mut self, ch: u8)
        requires
            old(self).wf(),
            old(self).contents().len() < PIPESIZE,
            old(self).nwrite < u32::MAX,
        ensures
            final(self).wf(),
            final(self).contents() == old(self).contents().push(ch),
            final(self).nread == old(self).nread,
            final(self).nwrite == old(self).nwrite + 1,
            final(self).readopen == old(self).readopen,
            final(self).writeopen == old(self).writeopen,
    {
        let idx = (self.nwrite as usize) % PIPESIZE;
        self.data.set(idx, ch);
        self.nwrite = self.nwrite + 1;
        let ghost o = old(self).contents();
        assert forall|k: int| 0 <= k < o.len() implies #[trigger] self.contents()[k] == o[k] by {
            lemma_mod_distinct(self.nread + k, self.nwrite - 1, 512);
        }
        assert(self.contents() =~= o.push(ch));
    }

    /// Take the oldest byte.
    pub fn get(&mut self) -> (ch: u8)
        requires
            old(self).wf(),
            old(self).contents().len() > 0,
        ensures
            final(self).wf(),
            ch == old(self).contents()[0],
            final(self).contents() == old(self).contents().drop_first(),
            final(self).nread == old(self).nread + 1,
            final(self).nwrite == old(self).nwrite,
            final(self).readopen == old(self).readopen,
            final(self).writeopen == old(self).writeopen,
    {
        let ch = self.data[(self.nread as usize) % PIPESIZE];
        self.nread = self.nread + 1;
        assert(self.contents() =~= old(self).contents().drop_first());
        ch
    }

    /// Close one end: the write end when `writable`, else the read end.
    /// Returns whether both ends are now closed, so that the pipe can be
    /// freed.
    pub fn close(&mut self, writable: bool) -> (both_closed: bool)
        ensures
            final(self).data == old(self).data,
            final(self).nread == old(self).nread,
            final(self).nwrite == old(self).nwrite,
            final(self).writeopen == (old(self).writeopen && !writable),
            final(self).readopen == (old(self).readopen && writable),
            both_closed == (!final(self).readopen && !final(self).writeopen),
    {
        if writable {
            self.writeopen = false;
        } else {
            self.readopen = false;
        }
        !self.readopen && !self.writeopen
    }
}

/// A byte-by-byte transfer of up to `n` bytes that stops at the first byte
/// that cannot be moved: the loops of pipe and console reads and writes.
pub struct Transfer {
    /// bytes asked for
    pub n: i32,
    /// bytes moved
    pub i: i32,
    /// a byte could not be moved, or there is nothing more to move
    pub stopped: bool,
}

impl Transfer {
    pub fn new(n: i32) -> (t: Transfer)
        ensures
            t.n == n,
            t.i == 0,
            !t.stopped,
    {
        Transfer { n, i: 0, stopped: false }
    }

    /// Whether the loop moves another byte.
    pub fn wants(&self) -> (r: bool)
        ensures
            r == (!self.stopped && self.i < self.n),
    {
        !self.stopped && self.i < self.n
    }

    /// Record whether the next byte was moved (`ok`); a byte that was not
    /// stops the transfer.
    pub fn moved(&mut self, ok: bool)
        requires
            old(self).i < old(self).n,
        ensures
            final(self).n == old(self).n,
            ok ==> final(self).i == old(self).i + 1 && final(self).stopped == old(self).stopped,
            !ok ==> final(self).i == old(self).i && final(self).stopped,
    {
        if ok {
            self.i = self.i + 1;
        } else {
            self.stopped = true;
        }
    }

    /// Stop before the next byte: there is nothing more to move.
    pub fn stop(&mut self)
        ensures
            final(self).n == old(self).n,
            final(self).i == old(self).i,
            final(self).stopped,
    {
        self.stopped = true;
    }

    /// The number of bytes moved, the call's result.
    pub fn result(&self) -> (r: i32)
        ensures
            r == self.i,
    {
        self.i
    }
}

/// Two counters less than a buffer length apart use distinct slots.
pub proof fn lemma_mod_distinct(x: int, y: int, m: int)
    requires
        0 <= x < y < x + m,
    ensures
        x % m != y % m,
{
    vstd::arithmetic::div_mod::lemma_fundamental_div_mod(x, m);
    vstd::arithmetic::div_mod::lemma_fundamental_div_mod(y, m);
    let qx = x / m;
    let qy = y / m;
    if x % m == y % m {
        assert(y - x == m * (qy - qx)) by (nonlinear_arith)
            requires
                x == m * qx + x % m,
                y == m * qy + y % m,
                x % m == y % m,
        ;
        assert(false) by (nonlinear_arith)
            requires
                y - x == m * (qy - qx),
                0 < y - x < m,
        ;
    }
}

/// A pipe delivers bytes in the order they were written: a byte put after
/// the bytes already there comes out of `get` after all of them, and the
/// first byte got is the oldest one put.
pub proof fn lemma_fifo(q: Seq<u8>, ch: u8)
    ensures
        q.push(ch)[q.len() as int] == ch,
        q.len() > 0 ==> q.push(ch)[0] == q[0] && q.push(ch).drop_first() == q.drop_first().push(
            ch,
        ),
        q.len() == 0 ==> q.push(ch)[0] == ch && q.push(ch).drop_first() == Seq::<u8>::empty(),
{
    if q.len() > 0 {
        assert(q.push(ch).drop_first() =~= q.drop_first().push(ch));
    } else {
        assert(q.push(ch).drop_first() =~= Seq::<u8>::empty());
    }
}

} // verus!
