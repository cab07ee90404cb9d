//! System call dispatch and the argument checks on file descriptors.
use vstd::prelude::*;

verus! {

/// open files per process
pub const NOFILE: usize = 16;

/// The system calls, by the handler that serves them.
#[derive(Clone, Copy, Debug, PartialEq, Eq, Structural)]
pub enum Syscall {
    Fork,
    Exit,
    Wait,
    Pipe,
    Read,
    Kill,
    Exec,
    Fstat,
    Chdir,
    Dup,
    Getpid,
    Sbrk,
    Sleep,
    Uptime,
    Open,
    Write,
    Mknod,
    Unlink,
    Link,
    Mkdir,
    Close,
}

/// The table mapping syscall numbers to the function that handles the
/// system call.
pub open spec fn syscall_spec(num: u64) -> Option<Syscall> {
    if num == 1 {
        Some(Syscall::Fork)
    } else if num == 2 {
        Some(Syscall::Exit)
    } else if num == 3 {
        Some(Syscall::Wait)
    } else if num == 4 {
        Some(Syscall::Pipe)
    } else if num == 5 {
        Some(Syscall::Read)
    } else if num == 6 {
        Some(Syscall::Kill)
    } else if num == 7 {
        Some(Syscall::Exec)
    } else if num == 8 {
        Some(Syscall::Fstat)
    } else if num == 9 {
        Some(Syscall::Chdir)
    } else if num == 10 {
        Some(Syscall::Dup)
    } else if num == 11 {
        Some(Syscall::Getpid)
    } else if num == 12 {
        Some(Syscall::Sbrk)
    } else if num == 13 {
        Some(Syscall::Sleep)
    } else if num == 14 {
        Some(Syscall::Uptime)
    } else if num == 15 {
        Some(Syscall::Open)
    } else if num == 16 {
        Some(Syscall::Write)
    } else if num == 17 {
        Some(Syscall::Mknod)
    } else if num == 18 {
        Some(Syscall::Unlink)
    } else if num == 19 {
        Some(Syscall::Link)
    } else if num == 20 {
        Some(Syscall::Mkdir)
    } else if num == 21 {
        Some(Syscall::Close)
    } else {
        None
    }
}

/// The system call numbers: 1 fork, 2 exit, 3 wait, 4 pipe, 5 read,
/// 6 kill, 7 exec, 8 fstat, 9 chdir, 10 dup, 11 getpid, 12 sbrk, 13 sleep,
/// 14 uptime, 15 open, 16 write, 17 mknod, 18 unlink, 19 link, 20 mkdir,
/// 21 close; every other number is unknown.
pub proof fn lemma_syscall_numbers(num: u64)
    ensures
        syscall_spec(1) == Some(Syscall::Fork),
        syscall_spec(2) == Some(Syscall::Exit),
        syscall_spec(3) == Some(Syscall::Wait),
        syscall_spec(4) == Some(Syscall::Pipe),
        syscall_spec(5) == Some(Syscall::Read),
        syscall_spec(6) == Some(Syscall::Kill),
        syscall_spec(7) == Some(Syscall::Exec),
        syscall_spec(8) == Some(Syscall::Fstat),
        syscall_spec(9) == Some(Syscall::Chdir),
        syscall_spec(10) == Some(Syscall::Dup),
        syscall_spec(11) == Some(Syscall::Getpid),
        syscall_spec(12) == Some(Syscall::Sbrk),
        syscall_spec(13) == Some(Syscall::Sleep),
        syscall_spec(14) == Some(Syscall::Uptime),
        syscall_spec(15) == Some(Syscall::Open),
        syscall_spec(16) == Some(Syscall::Write),
        syscall_spec(17) == Some(Syscall::Mknod),
        syscall_spec(18) == Some(Syscall::Unlink),
        syscall_spec(19) == Some(Syscall::Link),
        syscall_spec(20) == Some(Syscall::Mkdir),
        syscall_spec(21) == Some(Syscall::Close),
        (num == 0 || num > 21) <==> syscall_spec(num) is None,
{
}

/// Each handler serves exactly one system call number: two numbers that
/// name a handler name different ones.
pub proof fn lemma_syscall_one_number_each(a: u64, b: u64)
    requires
        a != b,
        syscall_spec(a) is Some,
    ensures
        syscall_spec(a) != syscall_spec(b),
{
}

/// Which handler serves system call number `num` (from register a7);
/// None for an unknown system call, which returns -1.
pub fn syscall(num: u64) -> (r: Option<Syscall>)
    ensures
        r == syscall_spec(num),
        num == 5 ==> r == Some(Syscall::Read),
        num == 16 ==> r == Some(Syscall::Write),
        (num == 0 || num > 21) <==> r is None,
{
    match num {
        1 => Some(Syscall::Fork),
        2 => Some(Syscall::Exit),
        3 => Some(Syscall::Wait),
        4 => Some(Syscall::Pipe),
        5 => Some(Syscall::Read),
        6 => Some(Syscall::Kill),
        7 => Some(Syscall::Exec),
        8 => Some(Syscall::Fstat),
        9 => Some(Syscall::Chdir),
        10 => Some(Syscall::Dup),
        11 => Some(Syscall::Getpid),
        12 => Some(Syscall::Sbrk),
        13 => Some(Syscall::Sleep),
        14 => Some(Syscall::Uptime),
        15 => Some(Syscall::Open),
        16 => Some(Syscall::Write),
        17 => Some(Syscall::Mknod),
        18 => Some(Syscall::Unlink),
        19 => Some(Syscall::Link),
        20 => Some(Syscall::Mkdir),
        21 => Some(Syscall::Close),
        _ => None,
    }
}

/// The open file that descriptor `fd` names in the process's table
/// `ofile`: Err(()) when fd is out of range or not open.
pub fn argfd(fd: i32, ofile: &[Option<usize>]) -> (r: Result<usize, ()>)
    requires
        ofile@.len() == NOFILE,
    ensures
        r == (if 0 <= fd < NOFILE {
            match ofile@[fd as int] {
                Some(f) => Ok(f),
                None => Err(()),
            }
        } else {
            Err(())
        }),
{
    if fd < 0 || fd >= NOFILE as i32 {
        return Err(());
    }
    match ofile[fd as usize] {
        Some(f) => Ok(f),
        None => Err(()),
    }
}

/// Allocate a file descriptor for the given file: the lowest free slot of
/// the process's table takes it. When none is free the file is handed back.
pub fn fdalloc(ofile: &mut Vec<Option<usize>>, f: usize) -> (r: Result<i32, usize>)
    requires
        old(ofile)@.len() == NOFILE,
    ensures
        final(ofile)@.len() == NOFILE,
        match r {
            Ok(fd) => {
                &&& 0 <= fd < NOFILE
                &&& old(ofile)@[fd as int] is None
                &&& forall|j: int| 0 <= j < fd ==> old(ofile)@[j] is Some
                &&& final(ofile)@ == old(ofile)@.update(fd as int, Some(f))
            },
            Err(g) => {
                &&& g == f
                &&& forall|j: int| 0 <= j < NOFILE ==> old(ofile)@[j] is Some
                &&& final(ofile)@ == old(ofile)@
            },
        },
{
    let mut fd: usize = 0;
    while fd < ofile.len()
        invariant
            fd <= ofile@.len(),
            ofile@ == old(ofile)@,
            ofile@.len() == NOFILE,
            forall|j: int| 0 <= j < fd ==> ofile@[j] is Some,
        decreases ofile@.len() - fd,
    {
        if ofile[fd].is_none() {
            ofile.set(fd, Some(f));
            return Ok(fd as i32);
        }
        fd = fd + 1;
    }
    Err(f)
}

/// Whether a sleep of `n` ticks begun at tick `ticks0` is over at tick
/// `ticks`; a negative n sleeps no time.
pub fn sleep_over(ticks: u32, ticks0: u32, n: i32) -> (r: bool)
    requires
        ticks0 <= ticks,
    ensures
        r == (ticks - ticks0 >= (if n < 0 {
            0
        } else {
            n as int
        })),
{
    let n: u32 = if n < 0 {
        0
    } else {
        n as u32
    };
    ticks - ticks0 >= n
}

/// Byte `k` (0 the least significant) of the two's-complement form of `x`.
pub open spec fn int_byte(x: i32, k: int) -> u8 {
    (((x as u32) >> (8 * k) as u32) & 0xff) as u8
}

/// The bytes of `x` in memory (bytemuck::bytes_of): least significant
/// first on the little-endian targets this kernel is built for (riscv64);
/// the contract claims no more than that layout.
#[verifier::external_body]
fn int_bytes(x: i32) -> (r: Vec<u8>)
    ensures
        r@.len() == 4,
        forall|k: int| 0 <= k < 4 ==> #[trigger] r@[k] == int_byte(x, k),
{
    bytemuck::bytes_of(&x).to_vec()
}

/// Ints as the bytes copied out to user memory, one after the other: the
/// exit status that wait reports, the two descriptors that pipe reports.
pub fn ints_bytes(xs: &[i32]) -> (r: Vec<u8>)
    requires
        xs@.len() * 4 <= usize::MAX,
    ensures
        r@.len() == 4 * xs@.len(),
        forall|k: int| 0 <= k < r@.len() ==> #[trigger] r@[k] == int_byte(xs@[k / 4], k % 4),
{
    let mut r: Vec<u8> = Vec::new();
    let mut i: usize = 0;
    while i < xs.len()
        invariant
            i <= xs@.len(),
            r@.len() == 4 * i,
            forall|k: int| 0 <= k < r@.len() ==> #[trigger] r@[k] == int_byte(xs@[k / 4], k % 4),
        decreases xs@.len() - i,
    {
        let b = int_bytes(xs[i]);
        let mut j: usize = 0;
        while j < 4
            invariant
                i < xs@.len(),
                j <= 4,
                b@.len() == 4,
                forall|k: int| 0 <= k < 4 ==> #[trigger] b@[k] == int_byte(xs@[i as int], k),
                r@.len() == 4 * i + j,
                forall|k: int| 0 <= k < r@.len() ==> #[trigger] r@[k] == int_byte(xs@[k / 4], k % 4),
            decreases 4 - j,
        {
            let ghost before = r@;
            r.push(b[j]);
            proof {
                let k = 4 * i + j;
                assert(k / 4 == i && k % 4 == j) by (nonlinear_arith)
                    requires k == 4 * i + j, 0 <= j < 4;
                assert forall|m: int| 0 <= m < r@.len() implies #[trigger] r@[m] == int_byte(xs@[m / 4], m % 4) by {
                    if m < before.len() {
                        assert(r@[m] == before[m]);
                    }
                }
            }
            j = j + 1;
        }
        i = i + 1;
    }
    r
}

} // verus!
