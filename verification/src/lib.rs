//! Verified model of the RCGOS RISC-V teaching kernel: task scheduling,
//! process bookkeeping, system calls and their user-memory copies, plus the
//! user-side task-info layout and a stackful coroutine scheduler.
use vstd::prelude::*;

pub mod config;
pub mod fs;
pub mod mm;
pub mod sync;

pub mod trap;
pub mod task;
pub mod syscall;
pub mod user;
