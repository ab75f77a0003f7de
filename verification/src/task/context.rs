//! The task context saved and restored by the task switch.
use vstd::prelude::*;

verus! {

/// Callee-saved registers of a task: return address, stack pointer, `s0`-`s11`.
#[derive(Clone, Copy)]
pub struct TaskContext {
    pub ra: usize,
    pub sp: usize,
    pub s: [usize; 12],
}

impl TaskContext {
    /// A context with every register zero.
    pub fn zero_init() -> (r: Self)
        ensures
            r.ra == 0,
            r.sp == 0,
            r.s@ == Seq::new(12, |i: int| 0usize),
    {
        let r = TaskContext { ra: 0, sp: 0, s: [0; 12] };
        assert(r.s@ =~= Seq::new(12, |i: int| 0usize));
        r
    }

    /// A context that, once switched to, returns into `trap_return` (at
    /// address `trap_return_addr`) on the kernel stack whose top is `kstack_ptr`.
    pub fn goto_trap_return(kstack_ptr: usize, trap_return_addr: usize) -> (r: Self)
        ensures
            r.ra == trap_return_addr,
            r.sp == kstack_ptr,
            r.s@ == Seq::new(12, |i: int| 0usize),
    {
        let r = TaskContext { ra: trap_return_addr, sp: kstack_ptr, s: [0; 12] };
        assert(r.s@ =~= Seq::new(12, |i: int| 0usize));
        r
    }
}

} // verus!
