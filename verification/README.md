# rcgos

A small RISC-V teaching kernel whose scheduling, process and system-call
logic is written and proved in Verus.

- `src/` is the verified library. The whole kernel state is one value,
  `task::Kernel`: the task control blocks (indexed by pid), the FIFO ready
  queue, the pid table, the processor, the applications of the file system
  and the pending console output. Every operation takes it by `&mut` and
  states, over spec functions, what it changes; all of them keep the kernel
  invariant `Kernel::wf` (tasks well formed, the ready queue holds exactly
  the Ready tasks once each, exactly the current task is Running, the pid
  table holds every live task, parents and children agree, the pids of
  reaped tasks are free for `fork` to reuse).
  - `task`: suspend, block and exit of the current task, signals, the heap
    end (`sbrk`), task snapshots, the kernel's console messages.
  - `syscall`: the dispatcher and the system calls (`fork`, `exec` and
    `waitpid` among them); `sys_task_info` writes the task-info struct byte
    by byte into user memory.
  - `trap`: what a trap from user mode does (system call, fault, timer).
  - `mm`: user address spaces as byte arrays with a per-page mapping, and
    the per-page buffer translation.
  - `user`: the user library's data types and decoding of the task-info
    struct, and the round-robin scheduler of the stackful coroutine runtime.
- `tests/` runs the library on concrete kernels.
- `app/` is the machine layer: boot, SBI console and shutdown, CSR access,
  the context switch and the loop that runs tasks; it performs what the
  library decides.
