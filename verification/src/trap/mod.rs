//! Trap handling: what the kernel does on a trap from user mode.
use vstd::prelude::*;
use crate::syscall::{syscall, syscall_args_ok, syscall_spec};
use crate::task::{
    add_signal_spec, check_signals_error_of_current, current_add_signal, exit_current_and_run_next,
    exit_current_spec, handle_signals, lemma_wf_same_statuses, same_family, suspend_current_and_run_next,
    suspend_spec, Kernel, SignalFlags, TaskControlBlock, TaskStatus,
};
use crate::task::signal::{signal_error_code, signal_error_message, SIGABRT, SIGFPE, SIGILL, SIGINT, SIGKILL, SIGSEGV};

pub mod context;

pub use context::TrapContext;

verus! {

/// The causes of a trap from user mode that the kernel handles.
#[derive(Clone, Copy, PartialEq, Eq, Structural, Debug)]
pub enum TrapCause {
    UserEnvCall,
    StoreFault,
    StorePageFault,
    InstructionFault,
    InstructionPageFault,
    LoadFault,
    LoadPageFault,
    IllegalInstruction,
    SupervisorTimer,
}

/// Whether the cause is a memory-access fault (which raises SIGSEGV).
pub open spec fn is_memory_fault(c: TrapCause) -> bool {
    c == TrapCause::StoreFault || c == TrapCause::StorePageFault || c == TrapCause::InstructionFault
        || c == TrapCause::InstructionPageFault || c == TrapCause::LoadFault || c == TrapCause::LoadPageFault
}

/// What `trap_resume` does, from kernel `o` to kernel `f`.
pub open spec fn trap_resume_spec(o: Kernel, f: Kernel, r: Option<&'static str>) -> bool {
    match signal_error_code(o.tasks[o.processor.current.unwrap() as int].signals.bits) {
        Some(code) => exit_current_spec(o, f, code) && r == Some(
            signal_error_message(o.tasks[o.processor.current.unwrap() as int].signals.bits),
        ),
        None => f == o && r is None,
    }
}

/// The end of trap handling for a task that is still current: pending
/// signals are handled, and a task with an error signal pending exits with
/// its code. Returns the message to print when it does.
pub fn trap_resume(k: &mut Kernel) -> (r: Option<&'static str>)
    requires
        old(k).wf(),
        old(k).processor.current is Some,
    ensures
        final(k).wf(),
        trap_resume_spec(*old(k), *final(k), r),
{
    handle_signals(k);
    match check_signals_error_of_current(k) {
        Some((errno, msg)) => {
            exit_current_and_run_next(k, errno);
            Some(msg)
        },
        None => None,
    }
}

/// `f` is `o` with the current task's `sepc` moved past the `ecall`.
pub open spec fn sepc_advanced(o: Kernel, f: Kernel) -> bool {
    let c = o.processor.current.unwrap() as int;
    let t = o.tasks[c];
    &&& f.tasks@ == o.tasks@.update(
        c,
        (TaskControlBlock {
            trap_cx: TrapContext { sepc: (if t.trap_cx.sepc + 4 > usize::MAX { (t.trap_cx.sepc + 4 - usize::MAX - 1) as usize } else { (t.trap_cx.sepc + 4) as usize }), ..t.trap_cx },
            ..t
        }),
    )
    &&& f.task_manager == o.task_manager
    &&& f.pid2tcb == o.pid2tcb
    &&& f.processor == o.processor
    &&& f.same_machine(&o)
}

/// `f` is `o` with the system call's result `res` stored in `a0` of task
/// `c`, unless that task has exited.
pub open spec fn result_stored(o: Kernel, f: Kernel, c: int, res: isize) -> bool {
    if o.tasks[c].task_status == TaskStatus::Exited {
        f == o
    } else {
        &&& f.tasks.len() == o.tasks.len()
        &&& forall|p: int| 0 <= p < o.tasks.len() && p != c ==> #[trigger] f.tasks[p] == o.tasks[p]
        &&& f.tasks[c] == (TaskControlBlock {
            trap_cx: TrapContext { x: f.tasks[c].trap_cx.x, ..o.tasks[c].trap_cx },
            ..o.tasks[c]
        })
        &&& f.tasks[c].trap_cx.x@ == o.tasks[c].trap_cx.x@.update(10, res as usize)
        &&& f.task_manager == o.task_manager
        &&& f.pid2tcb == o.pid2tcb
        &&& f.processor == o.processor
        &&& f.same_machine(&o)
    }
}

/// Kernel `f` finishes the trap from kernel `o`: the task `c` that trapped
/// resumes (see `trap_resume`) if it is still current; otherwise nothing
/// more happens and there is no message.
pub open spec fn finished(o: Kernel, f: Kernel, c: usize, r: Option<&'static str>) -> bool {
    if o.processor.current == Some(c) {
        trap_resume_spec(o, f, r)
    } else {
        f == o && r is None
    }
}

/// What `trap_handler` does on a system call: `sepc` advances, the call
/// runs on `a7` with arguments `a0`-`a2`, its result lands in `a0`, then the
/// trap finishes.
pub open spec fn ecall_steps(o: Kernel, m1: Kernel, m2: Kernel, m3: Kernel, res: isize, now: usize, f: Kernel, r: Option<&'static str>) -> bool {
    let c = o.processor.current.unwrap();
    let x = m1.tasks[c as int].trap_cx.x;
    &&& sepc_advanced(o, m1)
    &&& m1.wf()
    &&& syscall_spec(m1, m2, x[17], [x[10], x[11], x[12]], now, res)
    &&& m2.wf()
    &&& result_stored(m2, m3, c as int, res)
    &&& m3.wf()
    &&& finished(m3, f, c, r)
}

/// What `trap_handler` does, from kernel `o` to kernel `f`, returning the
/// message `r` to print.
pub open spec fn trap_spec(o: Kernel, f: Kernel, cause: TrapCause, now: usize, r: Option<&'static str>) -> bool {
    let c = o.processor.current.unwrap();
    if cause == TrapCause::UserEnvCall {
        exists|m1: Kernel, m2: Kernel, m3: Kernel, res: isize|
            #[trigger] ecall_steps(o, m1, m2, m3, res, now, f, r)
    } else if is_memory_fault(cause) {
        exists|m: Kernel| #[trigger] add_signal_spec(o, m, SignalFlags { bits: SIGSEGV }) && m.wf() && finished(m, f, c, r)
    } else if cause == TrapCause::IllegalInstruction {
        exists|m: Kernel| #[trigger] add_signal_spec(o, m, SignalFlags { bits: SIGILL }) && m.wf() && finished(m, f, c, r)
    } else {
        suspend_spec(o, f, c) && r is None
    }
}

/// Handles a trap of the current task with cause `cause` at time `now`:
/// runs a system call, raises SIGSEGV or SIGILL on faults, or suspends the
/// task on a timer interrupt; then, if the task is still current, handles
/// its signals. Returns the message to print if the task is killed.
pub fn trap_handler(k: &mut Kernel, cause: TrapCause, now: usize) -> (r: Option<&'static str>)
    requires
        old(k).wf(),
        old(k).processor.current is Some,
        cause == TrapCause::UserEnvCall ==> {
            let x = old(k).tasks[old(k).processor.current.unwrap() as int].trap_cx.x;
            syscall_args_ok(*old(k), x[17], [x[10], x[11], x[12]])
        },
    ensures
        final(k).wf(),
        trap_spec(*old(k), *final(k), cause, now, r),
{
    let cur = crate::task::processor::current_task(k).unwrap();
    match cause {
        TrapCause::UserEnvCall => {
            let cx = crate::task::processor::current_trap_cx(k);
            cx.sepc = cx.sepc.wrapping_add(4);
            let id = cx.x[17];
            let args = [cx.x[10], cx.x[11], cx.x[12]];
            let ghost m1 = *k;
            proof {
                assert forall|p: int| 0 <= p < k.tasks.len() implies #[trigger] same_family(old(k).tasks[p], k.tasks[p])
                    && k.tasks[p].task_status == old(k).tasks[p].task_status by {}
                lemma_wf_same_statuses(*old(k), *k);
                assert(k.tasks[cur as int].memory_set == old(k).tasks[cur as int].memory_set);
                assert(k.tasks[cur as int].trap_cx.x == old(k).tasks[cur as int].trap_cx.x);
                assert(sepc_advanced(*old(k), m1));
            }
            let res = syscall(k, id, args, now);
            let ghost m2 = *k;
            assert(cur < k.tasks.len());
            if k.tasks[cur].task_status != TaskStatus::Exited {
                k.tasks[cur].trap_cx.x[10] = res as usize;
                proof {
                    assert forall|p: int| 0 <= p < k.tasks.len() implies #[trigger] same_family(m2.tasks[p], k.tasks[p])
                        && k.tasks[p].task_status == m2.tasks[p].task_status by {}
                    lemma_wf_same_statuses(m2, *k);
                }
            }
            let ghost m3 = *k;
            assert(result_stored(m2, m3, cur as int, res));
            let r = if k.processor.current() == Some(cur) {
                trap_resume(k)
            } else {
                None
            };
            assert(ecall_steps(*old(k), m1, m2, m3, res, now, *k, r));
            r
        },
        TrapCause::StoreFault | TrapCause::StorePageFault | TrapCause::InstructionFault
        | TrapCause::InstructionPageFault | TrapCause::LoadFault | TrapCause::LoadPageFault => {
            current_add_signal(k, SignalFlags::from_bits(SIGSEGV));
            let ghost m = *k;
            let r = trap_resume(k);
            assert(add_signal_spec(*old(k), m, SignalFlags { bits: SIGSEGV }) && m.wf() && finished(m, *k, cur, r));
            r
        },
        TrapCause::IllegalInstruction => {
            current_add_signal(k, SignalFlags::from_bits(SIGILL));
            let ghost m = *k;
            let r = trap_resume(k);
            assert(add_signal_spec(*old(k), m, SignalFlags { bits: SIGILL }) && m.wf() && finished(m, *k, cur, r));
            r
        },
        TrapCause::SupervisorTimer => {
            suspend_current_and_run_next(k);
            None
        },
    }
}

} // verus!

verus! {

/// A fault kills the task that caused it: on any memory-access fault
/// (store, instruction or load; access fault or page fault) the current
/// task gets SIGSEGV and, with no other error signal pending, exits with
/// code -11; on an illegal instruction it gets SIGILL and exits with code
/// -4. Either way it leaves the processor, is not in the ready queue, and
/// the message to print is returned. A timer interrupt instead puts the
/// task, Ready, at the back of the queue.
pub proof fn lemma_fault_kills_the_task(o: Kernel, f: Kernel, cause: TrapCause, now: usize, r: Option<&'static str>)
    requires
        o.wf(),
        o.processor.current is Some,
        signal_error_code(o.tasks[o.processor.current.unwrap() as int].signals.bits) is None,
        trap_spec(o, f, cause, now, r),
    ensures
        ({
            let t = o.processor.current.unwrap();
            let fault = cause == TrapCause::StoreFault || cause == TrapCause::StorePageFault
                || cause == TrapCause::InstructionFault || cause == TrapCause::InstructionPageFault
                || cause == TrapCause::LoadFault || cause == TrapCause::LoadPageFault;
            &&& fault ==> f.tasks[t as int].task_status == TaskStatus::Exited
                && f.tasks[t as int].exit_code == -11i32 && f.tasks[t as int].signals.bits & SIGSEGV != 0
                && r == Some("Segmentation Fault, SIGSEGV=11")
            &&& cause == TrapCause::IllegalInstruction ==> f.tasks[t as int].task_status == TaskStatus::Exited
                && f.tasks[t as int].exit_code == -4i32 && f.tasks[t as int].signals.bits & SIGILL != 0
                && r == Some("Illegal Instruction, SIGILL=4")
            &&& (fault || cause == TrapCause::IllegalInstruction) ==> f.processor.current is None
                && !f.task_manager@.contains(t)
            &&& cause == TrapCause::SupervisorTimer ==> f.tasks[t as int].task_status == TaskStatus::Ready
                && f.task_manager@ == o.task_manager@.push(t) && f.processor.current is None && r is None
        }),
{
    let t = o.processor.current.unwrap();
    let bits = o.tasks[t as int].signals.bits;
    assert(!o.task_manager@.contains(t)) by {
        if o.task_manager@.contains(t) {
            let i = choose|i: int| 0 <= i < o.task_manager@.len() && o.task_manager@[i] == t;
            assert(o.tasks[o.task_manager@[i] as int].task_status == TaskStatus::Ready);
        }
    }
    if is_memory_fault(cause) || cause == TrapCause::IllegalInstruction {
        let sig = if is_memory_fault(cause) { SIGSEGV } else { SIGILL };
        let m = choose|m: Kernel| #[trigger] add_signal_spec(o, m, SignalFlags { bits: sig }) && m.wf() && finished(m, f, t, r);
        let nb = bits | sig;
        assert(m.tasks[t as int].signals.bits == nb);
        assert(m.processor == o.processor);
        if is_memory_fault(cause) {
            assert(nb & SIGINT == 0 && nb & SIGILL == 0 && nb & SIGABRT == 0 && nb & SIGFPE == 0
                && nb & SIGKILL == 0 && nb & SIGSEGV != 0) by (bit_vector)
                requires
                    nb == bits | SIGSEGV,
                    bits & SIGINT == 0, bits & SIGILL == 0, bits & SIGABRT == 0, bits & SIGFPE == 0, bits & SIGKILL == 0;
        } else {
            assert(nb & SIGINT == 0 && nb & SIGILL != 0) by (bit_vector)
                requires
                    nb == bits | SIGILL,
                    bits & SIGINT == 0;
        }
        assert(m.task_manager == o.task_manager);
    }
}

} // verus!

verus! {

/// A system call that returns to its task (`write`, `get_time`,
/// `task_info`, `get_task_id`, `sbrk`) resumes the task past its `ecall`:
/// the task stays current, its `sepc` moves on by 4 and `a7` keeps the
/// call's id; `get_task_id` leaves the task's pid in `a0`.
pub proof fn lemma_ecall_returns_past_the_call(o: Kernel, f: Kernel, now: usize, r: Option<&'static str>)
    requires
        o.wf(),
        o.processor.current is Some,
        signal_error_code(o.tasks[o.processor.current.unwrap() as int].signals.bits) is None,
        o.tasks[o.processor.current.unwrap() as int].trap_cx.sepc + 4 <= usize::MAX,
        ({
            let id = o.tasks[o.processor.current.unwrap() as int].trap_cx.x[17];
            id == crate::syscall::SYSCALL_WRITE || id == crate::syscall::SYSCALL_GET_TIME
                || id == crate::syscall::SYSCALL_TASK_INFO || id == crate::syscall::SYSCALL_GET_TASK_ID
                || id == crate::syscall::SYSCALL_SBRK
        }),
        trap_spec(o, f, TrapCause::UserEnvCall, now, r),
    ensures
        ({
            let t = o.processor.current.unwrap();
            let ocx = o.tasks[t as int].trap_cx;
            let fcx = f.tasks[t as int].trap_cx;
            &&& f.processor.current == Some(t)
            &&& f.tasks[t as int].task_status == TaskStatus::Running
            &&& fcx.sepc == ocx.sepc + 4
            &&& fcx.x[17] == ocx.x[17]
            &&& ocx.x[17] == crate::syscall::SYSCALL_GET_TASK_ID ==> fcx.x[10] == t
            &&& r is None
        }),
{
    let t = o.processor.current.unwrap();
    let ti = t as int;
    let (m1, m2, m3, res) = choose|m1: Kernel, m2: Kernel, m3: Kernel, res: isize|
        #[trigger] ecall_steps(o, m1, m2, m3, res, now, f, r);
    let x = m1.tasks[ti].trap_cx.x;
    let id = x[17];
    assert(m1.tasks[ti].trap_cx.sepc == o.tasks[ti].trap_cx.sepc + 4);
    assert(x == o.tasks[ti].trap_cx.x);
    let mid = choose|mid: Kernel|
        #[trigger] crate::task::record_syscall_times_spec(m1, mid, id) && mid.wf()
            && crate::syscall::syscall_effect(mid, m2, id, [x[10], x[11], x[12]], now, res);
    assert(mid.tasks[ti].trap_cx == m1.tasks[ti].trap_cx);
    assert(mid.tasks[ti].signals == m1.tasks[ti].signals);
    assert(mid.tasks[ti].task_status == TaskStatus::Running);
    assert(mid.processor == m1.processor);
    assert(m2.processor == mid.processor);
    assert(m2.tasks[ti].trap_cx == mid.tasks[ti].trap_cx);
    assert(m2.tasks[ti].signals == mid.tasks[ti].signals);
    assert(m2.tasks[ti].task_status == TaskStatus::Running);
    if id == crate::syscall::SYSCALL_GET_TASK_ID {
        assert(res == t);
    }
    assert(m3.tasks[ti].trap_cx.x@ == m2.tasks[ti].trap_cx.x@.update(10, res as usize));
    assert(m3.processor.current == Some(t));
    assert(m3.tasks[ti].signals == o.tasks[ti].signals);
    assert(f == m3);
}

} // verus!
