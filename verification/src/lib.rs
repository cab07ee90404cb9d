//! Verified core of a small RISC-V (Sv39) teaching kernel: address arithmetic,
//! the three-level page table, the console line discipline, pipe buffers,
//! the process table and the bookkeeping of files and system calls.
use vstd::prelude::*;

pub mod console;
pub mod exec;
pub mod fcntl;
pub mod file;
pub mod fs;
pub mod kalloc;
pub mod memlayout;
pub mod pipe;
pub mod proc;
pub mod rc;
pub mod stat;
pub mod syscall;
pub mod sysfile;
pub mod trap;
pub mod riscv;
pub mod vm;

