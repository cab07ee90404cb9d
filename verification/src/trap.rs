//! Traps: the decisions of the trap handlers, and timer interrupts.
use vstd::prelude::*;
use crate::proc::{Proc, notify_all, woken};

verus! {

/// A timer tick: count it, and wake up the processes sleeping on the tick
/// counter's channel `ticks_chan`, except the caller's own slot `me`.
pub fn clockintr(ticks: &mut u32, procs: &mut Vec<Proc>, ticks_chan: u64, me: Option<usize>)
    requires
        *old(ticks) < u32::MAX,
    ensures
        *final(ticks) == *old(ticks) + 1,
        final(procs)@.len() == old(procs)@.len(),
        forall|i: int|
            0 <= i < old(procs)@.len() ==> #[trigger] final(procs)@[i] == woken(
                old(procs)@[i],
                i,
                ticks_chan,
                me,
            ),
{
    *ticks = *ticks + 1;
    notify_all(procs, ticks_chan, me);
}

/// uart0 interrupt number
pub const UART0_IRQ: i32 = 10;

/// virtio disk interrupt number
pub const VIRTIO0_IRQ: i32 = 1;

/// The cause of a trap, as the handlers tell them apart.
#[derive(Clone, Copy, Debug, PartialEq, Eq, Structural)]
pub enum Cause {
    /// an ecall from user mode: a system call
    UserEnvCall,
    /// a supervisor external interrupt, via the PLIC
    SupervisorExternal,
    /// a software interrupt, forwarded from a machine-mode timer interrupt
    SupervisorSoft,
    /// any other interrupt or exception
    Other,
}

/// Which device an external interrupt comes from.
#[derive(Clone, Copy, Debug, PartialEq, Eq, Structural)]
pub enum Irq {
    Uart,
    Disk,
    /// no interrupt was pending
    Spurious,
    /// an interrupt from an unexpected source
    Unexpected(i32),
}

/// Which device claimed interrupt `irq` is from; every nonzero irq must
/// then be completed at the PLIC.
pub fn irq_device(irq: i32) -> (d: Irq)
    ensures
        d == (if irq == UART0_IRQ {
            Irq::Uart
        } else if irq == VIRTIO0_IRQ {
            Irq::Disk
        } else if irq == 0 {
            Irq::Spurious
        } else {
            Irq::Unexpected(irq)
        }),
{
    if irq == UART0_IRQ {
        Irq::Uart
    } else if irq == VIRTIO0_IRQ {
        Irq::Disk
    } else if irq == 0 {
        Irq::Spurious
    } else {
        Irq::Unexpected(irq)
    }
}

/// Check if it's an external interrupt or software interrupt:
/// returns 2 if timer interrupt,
/// 1 if other device,
/// 0 if not recognized.
pub fn devintr(cause: Cause) -> (which: i32)
    ensures
        which == (if cause == Cause::SupervisorExternal {
            1int
        } else if cause == Cause::SupervisorSoft {
            2
        } else {
            0
        }),
{
    match cause {
        Cause::SupervisorExternal => 1,
        Cause::SupervisorSoft => 2,
        _ => 0,
    }
}

/// Whether a software (timer) interrupt counts a tick: only on CPU 0.
pub fn counts_tick(cpuid: usize) -> (r: bool)
    ensures
        r == (cpuid == 0),
{
    cpuid == 0
}

/// The previous-privilege (SPP) bit of sstatus: set when the trap came
/// from supervisor mode.
pub const SSTATUS_SPP: u64 = 0x100;

/// The supervisor interrupt enable (SIE) bit of sstatus.
pub const SSTATUS_SIE: u64 = 0x2;

/// Whether a trap came from user mode, by the sstatus value: the user trap
/// handler must only be entered from there.
pub fn from_user(sstatus: u64) -> (r: bool)
    ensures
        r == (sstatus & SSTATUS_SPP == 0),
{
    sstatus & SSTATUS_SPP == 0
}

/// Are device interrupts enabled? (the SIE bit of the sstatus value)
pub fn intr_on(sstatus: u64) -> (r: bool)
    ensures
        r == (sstatus & SSTATUS_SIE != 0),
{
    sstatus & SSTATUS_SIE != 0
}

/// Whether a trap taken in the kernel is as it must be, by the sstatus
/// value: from supervisor mode, with device interrupts off.
pub fn kerneltrap_ok(sstatus: u64) -> (r: bool)
    ensures
        r == (sstatus & SSTATUS_SPP != 0 && sstatus & SSTATUS_SIE == 0),
{
    sstatus & SSTATUS_SPP != 0 && sstatus & SSTATUS_SIE == 0
}

/// What the user trap handler does first, by the trap's cause.
#[derive(Clone, Copy, Debug, PartialEq, Eq, Structural)]
pub enum TrapStart {
    /// a system call from a killed process: exit(-1)
    Exit,
    /// a system call: step past the ecall, enable interrupts, dispatch it
    Syscall,
    /// a device interrupt, handled; devintr's number for it
    Device(i32),
    /// an unexpected trap: report it and kill the process
    Unexpected,
}

/// The first step of the user trap handler: system calls (unless the
/// process was killed) and device interrupts are handled, anything else
/// kills the process.
pub fn usertrap_begin(cause: Cause, killed: bool) -> (r: TrapStart)
    ensures
        r == (if cause == Cause::UserEnvCall {
            if killed {
                TrapStart::Exit
            } else {
                TrapStart::Syscall
            }
        } else if cause == Cause::SupervisorExternal {
            TrapStart::Device(1)
        } else if cause == Cause::SupervisorSoft {
            TrapStart::Device(2)
        } else {
            TrapStart::Unexpected
        }),
{
    if cause == Cause::UserEnvCall {
        if killed {
            return TrapStart::Exit;
        }
        return TrapStart::Syscall;
    }
    let which_dev = devintr(cause);
    if which_dev != 0 {
        TrapStart::Device(which_dev)
    } else {
        TrapStart::Unexpected
    }
}

/// What the user trap handler does once the trap is handled.
#[derive(Clone, Copy, Debug, PartialEq, Eq, Structural)]
pub enum TrapEnd {
    /// the process was killed: exit(-1)
    Exit,
    /// a timer interrupt: give up the CPU, then return to user space
    Yield,
    /// return to user space
    Return,
}

/// The end of a user trap: a killed process exits, a timer interrupt
/// gives up the CPU.
pub fn usertrap_end(killed: bool, which_dev: i32) -> (r: TrapEnd)
    ensures
        r == (if killed {
            TrapEnd::Exit
        } else if which_dev == 2 {
            TrapEnd::Yield
        } else {
            TrapEnd::Return
        }),
{
    if killed {
        TrapEnd::Exit
    } else if which_dev == 2 {
        TrapEnd::Yield
    } else {
        TrapEnd::Return
    }
}

/// Whether a trap taken in the kernel gives up the CPU: a timer interrupt
/// does, when a process is running on this CPU. A trap that is no device
/// interrupt (which_dev 0) cannot be handled in the kernel.
pub fn kerneltrap_yields(which_dev: i32, running: bool) -> (r: bool)
    requires
        which_dev != 0,
    ensures
        r == (which_dev == 2 && running),
{
    which_dev == 2 && running
}

/// The user program counter to return to after a system call: sepc points
/// to the ecall instruction, but we want to return to the next
/// instruction.
pub fn syscall_return_pc(epc: u64) -> (r: u64)
    requires
        epc + 4 <= u64::MAX,
    ensures
        r == epc + 4,
{
    epc + 4
}

} // verus!
