//! Console input line discipline.
//! Reads are line at a time.
//! Implements special input characters:
//!   newline -- end of line
//!   control-h -- backspace
//!   control-u -- kill line
//!   control-d -- end of file
//!   control-p -- print process list
//!
//! Input is kept in a circular buffer of `INPUT_BUF_SIZE` bytes, indexed by
//! three ever-growing counters: `r` (read), `w` (write: the end of the
//! input that reads may consume) and `e` (edit: the end of the line being
//! typed). The interrupt handler edits the line; whole lines are committed
//! by moving `w` up to `e`.
use vstd::prelude::*;

verus! {

/// Size of the console input buffer.
pub const INPUT_BUF_SIZE: usize = 128;

/// What the console echoes to erase the last character.
pub const BACKSPACE: i32 = 0x100;

/// Control-x
pub open spec fn ctrl_spec(x: u8) -> u8 {
    (x - 64) as u8
}

/// Control-x
pub fn ctrl(x: u8) -> (r: u8)
    requires
        x >= 64,
    ensures
        r == ctrl_spec(x),
{
    x - 64
}

/// The console input state.
pub struct Cons {
    /// input
    pub buf: Vec<u8>,
    /// Read index
    pub r: usize,
    /// Write index
    pub w: usize,
    /// Edit index
    pub e: usize,
}

/// The abstract console state.
pub struct ConsState {
    pub buf: Seq<u8>,
    pub r: int,
    pub w: int,
    pub e: int,
}

/// What the interrupt handler asks of the outside world.
pub struct IntrEffects {
    /// print the process list
    pub procdump: bool,
    /// characters to echo, in order
    pub echo: Vec<i32>,
    /// wake up readers waiting for input
    pub wakeup: bool,
}

/// The abstract effects of one input character.
pub struct IntrOutcome {
    pub state: ConsState,
    pub procdump: bool,
    pub echo: Seq<i32>,
    pub wakeup: bool,
}

impl ConsState {
    /// The buffer slot of counter `i`.
    pub open spec fn at(self, i: int) -> u8 {
        self.buf[i % INPUT_BUF_SIZE as int]
    }

    /// The counters are ordered and the pending input fits the buffer.
    pub open spec fn wf(self) -> bool {
        &&& self.buf.len() == INPUT_BUF_SIZE
        &&& 0 <= self.r <= self.w <= self.e <= self.r + INPUT_BUF_SIZE
    }

    /// Where kill-line processing stops erasing: at the committed input,
    /// or just after a newline.
    pub open spec fn kill_line_end(self, e: int) -> int
        decreases e - self.w,
    {
        if e <= self.w || self.at(e - 1) == 10 {
            e
        } else {
            self.kill_line_end(e - 1)
        }
    }

    /// The effect of input character `c`.
    pub open spec fn intr(self, c: u8) -> IntrOutcome {
        if c == ctrl_spec(80) {
            // Print process list.
            IntrOutcome { state: self, procdump: true, echo: Seq::empty(), wakeup: false }
        } else if c == ctrl_spec(85) {
            // Kill line.
            let e2 = self.kill_line_end(self.e);
            IntrOutcome {
                state: ConsState { e: e2, ..self },
                procdump: false,
                echo: Seq::new((self.e - e2) as nat, |k: int| BACKSPACE),
                wakeup: false,
            }
        } else if c == ctrl_spec(72) || c == 0x7f {
            // Backspace or Delete key.
            if self.e != self.w {
                IntrOutcome {
                    state: ConsState { e: self.e - 1, ..self },
                    procdump: false,
                    echo: seq![BACKSPACE],
                    wakeup: false,
                }
            } else {
                IntrOutcome { state: self, procdump: false, echo: Seq::empty(), wakeup: false }
            }
        } else if c != 0 && self.e - self.r < INPUT_BUF_SIZE {
            let c2: u8 = if c == 13 {
                10
            } else {
                c
            };
            let e2 = self.e + 1;
            let buf2 = self.buf.update(self.e % INPUT_BUF_SIZE as int, c2);
            let commit = c2 == 10 || c2 == ctrl_spec(68) || e2 - self.r == INPUT_BUF_SIZE;
            IntrOutcome {
                state: ConsState { buf: buf2, r: self.r, w: if commit {
                    e2
                } else {
                    self.w
                }, e: e2 },
                procdump: false,
                echo: seq![c2 as i32],
                wakeup: commit,
            }
        } else {
            IntrOutcome { state: self, procdump: false, echo: Seq::empty(), wakeup: false }
        }
    }
}

/// The kill-line end lies between the committed input and the edit index.
pub proof fn lemma_kill_line_end(s: ConsState, e: int)
    requires
        s.w <= e,
    ensures
        s.w <= s.kill_line_end(e) <= e,
    decreases e - s.w,
{
    if e <= s.w || s.at(e - 1) == 10 {
    } else {
        lemma_kill_line_end(s, e - 1);
    }
}

/// What one step of a console read found.
pub enum ReadStep {
    /// No committed input: wait for the interrupt handler.
    Wait,
    /// End of file: stop reading.
    Eof,
    /// Copy this byte to the reader.
    Char(u8),
}

impl Cons {
    /// The abstract state.
    pub open spec fn view(&self) -> ConsState {
        ConsState { buf: self.buf@, r: self.r as int, w: self.w as int, e: self.e as int }
    }

    /// An empty console.
    pub fn new() -> (c: Cons)
        ensures
            c@.wf(),
            c@.r == 0,
            c@.w == 0,
            c@.e == 0,
    {
        let mut buf: Vec<u8> = Vec::new();
        let mut k: usize = 0;
        while k < INPUT_BUF_SIZE
            invariant
                k <= INPUT_BUF_SIZE,
                buf@.len() == k,
            decreases INPUT_BUF_SIZE - k,
        {
            buf.push(0);
            k = k + 1;
        }
        Cons { buf, r: 0, w: 0, e: 0 }
    }

    /// The console input interrupt handler, for one input character:
    /// do erase/kill processing, append to the buffer, and ask to wake up
    /// readers if a whole line (or end-of-file, or a full buffer) has
    /// arrived.
    pub fn intr(&mut self, c: u8) -> (out: IntrEffects)
        requires
            old(self)@.wf(),
            old(self).e < usize::MAX,
        ensures
            final(self)@.wf(),
            final(self)@ == old(self)@.intr(c).state,
            out.procdump == old(self)@.intr(c).procdump,
            out.echo@ == old(self)@.intr(c).echo,
            out.wakeup == old(self)@.intr(c).wakeup,
    {
        let ghost s = self@;
        let mut echo: Vec<i32> = Vec::new();
        if c == ctrl(80) {
            // Print process list.
            assert(echo@ =~= Seq::<i32>::empty());
            return IntrEffects { procdump: true, echo, wakeup: false };
        } else if c == ctrl(85) {
            // Kill line.
            proof {
                lemma_kill_line_end(s, s.e);
            }
            while self.e != self.w && self.buf[(self.e - 1) % INPUT_BUF_SIZE] != 10u8
                invariant
                    self@.wf(),
                    self.buf@ == s.buf,
                    self.r == s.r,
                    self.w == s.w,
                    s.w <= self.e <= s.e,
                    s.kill_line_end(self.e as int) == s.kill_line_end(s.e),
                    echo@ == Seq::new((s.e - self.e) as nat, |k: int| BACKSPACE),
                decreases self.e,
            {
                self.e = self.e - 1;
                echo.push(BACKSPACE);
                assert(echo@ =~= Seq::new((s.e - self.e) as nat, |k: int| BACKSPACE));
            }
            assert(self.e == s.kill_line_end(self.e as int));
        } else if c == ctrl(72) || c == 0x7f {
            // Backspace or Delete key.
            if self.e != self.w {
                self.e = self.e - 1;
                echo.push(BACKSPACE);
                assert(echo@ =~= seq![BACKSPACE]);
            } else {
                assert(echo@ =~= Seq::<i32>::empty());
            }
        } else if c != 0 && self.e - self.r < INPUT_BUF_SIZE {
            let c2: u8 = if c == 13u8 {
                10u8
            } else {
                c
            };
            // echo back to the user.
            echo.push(c2 as i32);
            // store for consumption by reads.
            let idx = self.e % INPUT_BUF_SIZE;
            self.buf.set(idx, c2);
            self.e = self.e + 1;
            let commit = c2 == 10u8 || c2 == ctrl(68) || self.e - self.r == INPUT_BUF_SIZE;
            if commit {
                // a whole line (or end-of-file) has arrived.
                self.w = self.e;
            }
            assert(echo@ =~= seq![c2 as i32]);
            return IntrEffects { procdump: false, echo, wakeup: commit };
        } else {
            assert(echo@ =~= Seq::<i32>::empty());
        }
        IntrEffects { procdump: false, echo, wakeup: false }
    }

    /// One step of a console read, once `copied` bytes have gone to the
    /// reader: take the next committed byte, if any. End-of-file (control-D)
    /// stops the read; when some bytes were already copied it is left in
    /// place, so that the next read returns nothing.
    pub fn read_step(&mut self, copied: bool) -> (step: ReadStep)
        requires
            old(self)@.wf(),
        ensures
            final(self)@.wf(),
            final(self).buf@ == old(self).buf@,
            final(self).w == old(self).w,
            final(self).e == old(self).e,
            old(self).r == old(self).w ==> step is Wait && final(self).r == old(self).r,
            old(self).r != old(self).w ==> {
                let ch = old(self)@.at(old(self).r as int);
                if ch == ctrl_spec(68) {
                    &&& step is Eof
                    &&& final(self).r == (if copied {
                        old(self).r as int
                    } else {
                        old(self).r + 1
                    })
                } else {
                    &&& step == ReadStep::Char(ch)
                    &&& final(self).r == old(self).r + 1
                }
            },
    {
        if self.r == self.w {
            return ReadStep::Wait;
        }
        let c = self.buf[self.r % INPUT_BUF_SIZE];
        self.r = self.r + 1;
        if c == ctrl(68) {
            // end-of-file
            if copied {
                // Save ^D for next time, to make sure
                // caller gets a 0-byte result.
                self.r = self.r - 1;
            }
            return ReadStep::Eof;
        }
        ReadStep::Char(c)
    }
}

/// Typing a character on an open line and then backspace leaves the line
/// as it was: the edit index comes back, and the committed input and the
/// read index stay put.
pub proof fn lemma_backspace_undoes_char(s: ConsState, c: u8)
    requires
        s.wf(),
        c != 0,
        c != 13,
        c != 10,
        c != ctrl_spec(80),
        c != ctrl_spec(85),
        c != ctrl_spec(72),
        c != ctrl_spec(68),
        c != 0x7f,
        s.e + 1 - s.r < INPUT_BUF_SIZE,
    ensures
        s.intr(c).state.intr(0x7f).state.e == s.e,
        s.intr(c).state.intr(0x7f).state.w == s.w,
        s.intr(c).state.intr(0x7f).state.r == s.r,
        s.intr(c).echo + s.intr(c).state.intr(0x7f).echo == seq![c as i32, BACKSPACE],
{
    assert(s.intr(c).echo + s.intr(c).state.intr(0x7f).echo =~= seq![c as i32, BACKSPACE]);
}

/// The interrupt handler keeps the console state well formed, and never
/// moves committed input or the read index backwards.
pub proof fn lemma_intr_wf(s: ConsState, c: u8)
    requires
        s.wf(),
    ensures
        s.intr(c).state.wf(),
        s.intr(c).state.r == s.r,
        s.w <= s.intr(c).state.w,
        forall|i: int| s.r <= i < s.w ==> #[trigger] s.intr(c).state.at(i) == s.at(i),
{
    lemma_kill_line_end(s, s.e);
    let t = s.intr(c).state;
    assert forall|i: int| s.r <= i < s.w implies #[trigger] t.at(i) == s.at(i) by {
        if c != ctrl_spec(80) && c != ctrl_spec(85) && !(c == ctrl_spec(72) || c == 0x7f) && c != 0
            && s.e - s.r < INPUT_BUF_SIZE {
            assert(i % 128 != s.e % 128) by (nonlinear_arith)
                requires
                    s.r <= i < s.w <= s.e < s.r + 128,
                    0 <= s.r,
            ;
        }
    }
}

/// A console read of up to `target` bytes: it copies input bytes until
/// `target` bytes are copied, a copy fails, a whole line has arrived, or
/// end of file is met. Returns the number of bytes copied.
pub struct LineRead {
    pub target: i32,
    /// bytes still wanted
    pub left: i32,
    pub done: bool,
}

impl LineRead {
    /// The bytes still wanted are the bytes asked for less those copied.
    pub open spec fn wf(&self) -> bool {
        self.left == self.target || 0 <= self.left < self.target
    }

    pub fn new(n: i32) -> (l: LineRead)
        ensures
            l.wf(),
            l.target == n,
            l.left == n,
            !l.done,
    {
        LineRead { target: n, left: n, done: false }
    }

    /// Whether the read wants another byte.
    pub fn wants(&self) -> (r: bool)
        ensures
            r == (!self.done && self.left > 0),
    {
        !self.done && self.left > 0
    }

    /// Record input byte `c`, copied to the reader when `ok`: a failed
    /// copy ends the read; a newline ends it after being copied.
    pub fn copied(&mut self, c: u8, ok: bool)
        requires
            old(self).wf(),
            old(self).left > 0,
        ensures
            final(self).wf(),
            final(self).target == old(self).target,
            !ok ==> final(self).left == old(self).left && final(self).done,
            ok ==> final(self).left == old(self).left - 1 && final(self).done == (old(self).done
                || c == 0x0a),
    {
        if !ok {
            self.done = true;
            return;
        }
        self.left = self.left - 1;
        if c == 0x0a {
            // a whole line has arrived, return to
            // the user-level read().
            self.done = true;
        }
    }

    /// End of file: the read ends here.
    pub fn eof(&mut self)
        ensures
            old(self).wf() ==> final(self).wf(),
            final(self).target == old(self).target,
            final(self).left == old(self).left,
            final(self).done,
    {
        self.done = true;
    }

    /// The bytes copied, the read's result.
    pub fn result(&self) -> (r: i32)
        requires
            self.wf(),
        ensures
            r == self.target - self.left,
    {
        self.target - self.left
    }
}

/// End of file: control-D (byte 4) typed with room in the buffer is
/// always committed, whatever the line holds: readers are woken, the
/// committed input reaches the edit index past the ^D, and the ^D is the
/// last committed byte. On an empty line it is the next byte a read takes.
pub proof fn lemma_eof_commits(s: ConsState)
    requires
        s.wf(),
        s.e - s.r < INPUT_BUF_SIZE,
    ensures
        s.intr(4).wakeup,
        s.intr(4).state.e == s.e + 1,
        s.intr(4).state.w == s.e + 1,
        s.intr(4).state.at(s.e) == 4,
        s.r == s.e ==> s.intr(4).state.at(s.intr(4).state.r) == 4 && s.intr(4).state.r
            < s.intr(4).state.w,
{
}

/// End of line: a newline (or carriage return) typed with room in the
/// buffer is always committed, and stored as a newline.
pub proof fn lemma_newline_commits(s: ConsState, c: u8)
    requires
        s.wf(),
        s.e - s.r < INPUT_BUF_SIZE,
        c == 10 || c == 13,
    ensures
        s.intr(c).wakeup,
        s.intr(c).state.w == s.e + 1,
        s.intr(c).state.e == s.e + 1,
        s.intr(c).state.at(s.e) == 10,
{
}

/// An ordinary character typed on a line with more room left is stored
/// and echoed but not committed: readers are not woken.
pub proof fn lemma_char_not_committed(s: ConsState, c: u8)
    requires
        s.wf(),
        s.e + 1 - s.r < INPUT_BUF_SIZE,
        c != 0,
        c != 4,
        c != 8,
        c != 10,
        c != 13,
        c != 16,
        c != 21,
        c != 0x7f,
    ensures
        !s.intr(c).wakeup,
        s.intr(c).state.w == s.w,
        s.intr(c).state.e == s.e + 1,
        s.intr(c).state.at(s.e) == c,
        s.intr(c).echo == seq![c as i32],
{
}

} // verus!
