//! Kernel-wide constants.
use vstd::prelude::*;

verus! {

/// Number of system-call ids whose invocations are counted per task.
pub const MAX_SYSCALL_NUM: usize = 500;

/// Size of a page of the (single-level) user address space model.
pub const PAGE_SIZE: usize = 4096;

/// Size of the kernel stack of every task.
pub const KERNEL_STACK_SIZE: usize = 8192;

/// Highest page of the address space: the trampoline.
pub const TRAMPOLINE: usize = usize::MAX - PAGE_SIZE + 1;

/// Number of tasks for which a kernel stack fits below the trampoline
/// (one guard page between consecutive stacks).
pub const MAX_TASKS: usize = 0x1_0000;

/// The pid of the initial process; its exit halts the machine.
pub const IDLE_PID: usize = 0;

} // verus!
