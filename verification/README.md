# kernel

The verified core of a small RISC-V (Sv39) teaching kernel in the style of
xv6, written in Verus.

`src/` is the library. Its functions are verified, except five small
wrappers around outside crates, whose contracts are trusted: `heapless`'s
vector behind `UStack` (`new`, `push`, `as_slice`), and `bytemuck`'s byte
views of the argument stack (`UStack::bytes`) and of an int (`int_bytes`).

- `riscv`, `memlayout`: page arithmetic, PTE address conversion, page-table
  indices, the satp value, and the trampoline/trapframe addresses.
- `vm`: the three-level page table (`PageTable`), with `insert`, `remove`,
  `lookup`, `walkaddr`, `uvmcreate`, `uvmfirst`, `uvmclear`, `uvmfree` and the process
  address space `ProcVm`. Its view is the map from page-aligned virtual
  addresses to level-0 PTEs.
- `console`: the input line discipline (editing, kill line, end of file,
  line commit) as a state machine over a circular buffer.
- `pipe`: the bounded byte queue of a pipe.
- `proc`, `trap`: the process table (allocation, pids, kill, sleep and
  wakeup, fork, exit, orphans, wait), the trapframe and context a process
  starts with, and the trap handlers' decisions.
- `file`, `fcntl`, `fs`, `stat`, `rc`, `syscall`, `sysfile`: the file table,
  open modes, inode arithmetic (reads, writes, truncation), link counts,
  system call dispatch and descriptor handling (dup, close, fork, exit).
- `exec`, `kalloc`: the plan of exec (ELF checks, the loaded image, the
  guard and stack pages, the argument stack and its bytes), segment
  loading, and the allocator's size rule.

`app/` holds some of the glue around it: the console's read, write and
interrupt handlers and the pipe loops, acting on the library's state
machines; the global allocator; the conversions from `goblin`'s ELF headers
and `riscv`'s trap causes and registers. The rest of the kernel (the C
parts, boot, the scheduler, the system-call entry points) is not here.
`tests/` exercises the library on concrete values.
