//! Virtual memory layout.
//!
//! User memory layout.
//! Address zero first:
//!   text
//!   initialized data and bss
//!   fixed-size stack
//!   expandable heap
//!   ...
//!   TRAPFRAME (p->trapframe, used by the trampoline)
//!   TRAMPOLINE (the same page as in the kernel)
use vstd::prelude::*;

verus! {

/// The trampoline page is mapped at the highest address,
/// in both user and kernel space (MAXVA - PGSIZE).
pub const TRAMPOLINE: u64 = 0x3F_FFFF_F000;

/// The trapframe page sits just below the trampoline (TRAMPOLINE - PGSIZE).
pub const TRAPFRAME: u64 = 0x3F_FFFF_E000;

} // verus!
