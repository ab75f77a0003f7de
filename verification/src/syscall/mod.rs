//! System calls: the dispatcher and the calls themselves.
use vstd::prelude::*;
use crate::task::{record_syscall_times, record_syscall_times_spec, Kernel};
use crate::syscall::fs::{pages_utf8, sys_write, sys_write_spec, FD_STDOUT};
use crate::syscall::process::{
    sys_exit, sys_exit_spec, sys_get_task_id, sys_get_time, sys_get_time_spec, sys_sbrk, sys_sbrk_spec,
    sys_task_info, sys_task_info_spec, sys_yield, sys_yield_spec, TASK_INFO_SIZE,
};

pub mod fs;
pub mod process;

verus! {

pub const SYSCALL_WRITE: usize = 64;
pub const SYSCALL_EXIT: usize = 93;
pub const SYSCALL_YIELD: usize = 124;
pub const SYSCALL_GET_TIME: usize = 169;
pub const SYSCALL_TASK_INFO: usize = 410;
pub const SYSCALL_GET_TASK_ID: usize = 411;
pub const SYSCALL_SBRK: usize = 214;

/// The system calls that the dispatcher serves.
pub open spec fn syscall_supported(id: usize) -> bool {
    id == SYSCALL_WRITE || id == SYSCALL_EXIT || id == SYSCALL_YIELD || id == SYSCALL_GET_TIME
        || id == SYSCALL_TASK_INFO || id == SYSCALL_GET_TASK_ID || id == SYSCALL_SBRK
}

/// What system call `id` with arguments `args` at time `now` does, from
/// kernel `o` (after the call was counted) to kernel `f`, returning `r`.
pub open spec fn syscall_effect(o: Kernel, f: Kernel, id: usize, args: [usize; 3], now: usize, r: isize) -> bool {
    if id == SYSCALL_WRITE {
        sys_write_spec(o, f, args[1], args[2], r)
    } else if id == SYSCALL_EXIT {
        sys_exit_spec(o, f, args[0] as i32) && r == 0
    } else if id == SYSCALL_YIELD {
        sys_yield_spec(o, f, r)
    } else if id == SYSCALL_GET_TIME {
        sys_get_time_spec(o, f, args[0], now, r)
    } else if id == SYSCALL_TASK_INFO {
        sys_task_info_spec(o, f, args[0], args[1], now, r)
    } else if id == SYSCALL_GET_TASK_ID {
        r == o.processor.current.unwrap() as isize && f == o
    } else {
        sys_sbrk_spec(o, f, args[0] as i32, r)
    }
}

/// What `syscall` does: counts the call, then runs it.
pub open spec fn syscall_spec(o: Kernel, f: Kernel, id: usize, args: [usize; 3], now: usize, r: isize) -> bool {
    exists|mid: Kernel|
        #[trigger] record_syscall_times_spec(o, mid, id) && mid.wf() && syscall_effect(mid, f, id, args, now, r)
}

/// The preconditions of system call `id` on the current task of `k`.
pub open spec fn syscall_args_ok(k: Kernel, id: usize, args: [usize; 3]) -> bool {
    &&& syscall_supported(id)
    &&& id == SYSCALL_WRITE ==> {
        let m = k.tasks[k.processor.current.unwrap() as int].memory_set;
        &&& args[0] == FD_STDOUT
        &&& m.range_mapped(args[1] as int, args[2] as int) ==> pages_utf8(m.bytes@, args[1] as int, args[2] as int)
    }
    &&& id == SYSCALL_TASK_INFO ==> args[1] + TASK_INFO_SIZE <= usize::MAX
}

/// Handles system call `syscall_id` of the current task: counts it, then
/// runs it. Returns the call's result (0 for `exit`, whose task does not
/// come back).
pub fn syscall(k: &mut Kernel, syscall_id: usize, args: [usize; 3], now: usize) -> (r: isize)
    requires
        old(k).wf(),
        old(k).processor.current is Some,
        syscall_args_ok(*old(k), syscall_id, args),
    ensures
        final(k).wf(),
        syscall_spec(*old(k), *final(k), syscall_id, args, now, r),
{
    record_syscall_times(k, syscall_id);
    let ghost mid = *k;
    proof {
        let c = old(k).processor.current.unwrap() as int;
        assert(k.processor.current == old(k).processor.current);
        assert(k.tasks[c].memory_set == old(k).tasks[c].memory_set);
    }
    let r = if syscall_id == SYSCALL_WRITE {
        sys_write(k, args[0], args[1], args[2])
    } else if syscall_id == SYSCALL_EXIT {
        sys_exit(k, args[0] as i32);
        0
    } else if syscall_id == SYSCALL_YIELD {
        sys_yield(k)
    } else if syscall_id == SYSCALL_GET_TIME {
        sys_get_time(k, args[0], args[1], now)
    } else if syscall_id == SYSCALL_TASK_INFO {
        sys_task_info(k, args[0], args[1], now)
    } else if syscall_id == SYSCALL_GET_TASK_ID {
        sys_get_task_id(k)
    } else {
        sys_sbrk(k, args[0] as i32)
    };
    assert(record_syscall_times_spec(*old(k), mid, syscall_id) && mid.wf()
        && syscall_effect(mid, *k, syscall_id, args, now, r));
    r
}

} // verus!

verus! {

/// Counting a call changes nothing of a task but its call counts.
proof fn lemma_counting_keeps_tasks(o: Kernel, mid: Kernel, id: usize)
    requires
        o.wf(),
        o.processor.current is Some,
        record_syscall_times_spec(o, mid, id),
    ensures
        mid.processor == o.processor,
        mid.task_manager == o.task_manager,
        mid.console == o.console,
        mid.tasks.len() == o.tasks.len(),
        ({
            let c = o.processor.current.unwrap() as int;
            &&& mid.tasks[c].program_brk == o.tasks[c].program_brk
            &&& mid.tasks[c].heap_bottom == o.tasks[c].heap_bottom
            &&& mid.tasks[c].memory_set == o.tasks[c].memory_set
            &&& mid.tasks[c].task_status == o.tasks[c].task_status
            &&& mid.tasks[c].pid == o.tasks[c].pid
        }),
{
}

/// The dispatcher runs the call that the id names, on the arguments in the
/// order the user library passes them (`a0`, `a1`, `a2`):
/// - `write(fd = a0, buf = a1, len = a2)`: a mapped buffer is appended to
///   the console and `len` returned, otherwise -1;
/// - `exit(code = a0)`: the task exits with that code;
/// - `yield`: 0, the task is Ready at the back of the queue;
/// - `get_time(ts = a0)`: with a null `ts` the time itself, otherwise the
///   time written at `ts` as seconds and microseconds;
/// - `task_info(id = a0, ti = a1)`: -1 for a null `ti`; on success the
///   record at `ti` starts with the pid `id`;
/// - `get_task_id`: the current pid;
/// - `sbrk(size = a0)`: the heap end moves by `size` when it stays within
///   the heap's range (the old end is returned), otherwise -1.
pub proof fn lemma_syscall_dispatch(o: Kernel, f: Kernel, id: usize, args: [usize; 3], now: usize, r: isize)
    requires
        o.wf(),
        o.processor.current is Some,
        syscall_spec(o, f, id, args, now, r),
    ensures
        ({
            let c = o.processor.current.unwrap() as int;
            let t = o.tasks[c];
            let b = t.memory_set.bytes@;
            let fb = f.tasks[c].memory_set.bytes@;
            &&& id == SYSCALL_WRITE ==> {
                &&& t.memory_set.range_mapped(args[1] as int, args[2] as int) ==> r == args[2] as isize
                    && f.console@ == o.console@ + crate::syscall::fs::user_bytes(b, args[1] as int, args[2] as int)
                &&& !t.memory_set.range_mapped(args[1] as int, args[2] as int) ==> r == -1 && f.console == o.console
            }
            &&& id == SYSCALL_EXIT ==> r == 0 && f.tasks[c].task_status == crate::task::TaskStatus::Exited
                && f.tasks[c].exit_code == args[0] as i32 && f.processor.current is None
            &&& id == SYSCALL_YIELD ==> r == 0 && f.tasks[c].task_status == crate::task::TaskStatus::Ready
                && f.task_manager@ == o.task_manager@.push(c as usize) && f.processor.current is None
            &&& (id == SYSCALL_GET_TIME && args[0] == 0) ==> r == now as isize
            &&& (id == SYSCALL_GET_TIME && args[0] != 0 && r == 0) ==> crate::syscall::process::read_u64_at(fb, args[0] as int)
                == now / 1000 && crate::syscall::process::read_u64_at(fb, args[0] + 8) == (now % 1000) * 1000
            &&& id == SYSCALL_GET_TASK_ID ==> r == c && f.tasks[c].task_status == t.task_status
                && f.tasks[c].trap_cx == t.trap_cx && f.processor == o.processor
            &&& (id == SYSCALL_TASK_INFO && args[1] == 0) ==> r == -1
            &&& (id == SYSCALL_TASK_INFO && args[1] != 0 && args[1] + crate::syscall::process::TASK_INFO_SIZE <= usize::MAX && r == 0)
                ==> crate::syscall::process::read_u64_at(fb, args[1] as int) == args[0] as u64
            &&& id == SYSCALL_SBRK ==> {
                let size = args[0] as i32;
                let ok = t.heap_bottom <= t.program_brk + size <= t.memory_set.bytes.len();
                &&& ok ==> r == t.program_brk as isize && f.tasks[c].program_brk == t.program_brk + size
                &&& !ok ==> r == -1 && f.tasks[c].program_brk == t.program_brk
            }
        }),
{
    let mid = choose|mid: Kernel|
        #[trigger] record_syscall_times_spec(o, mid, id) && mid.wf() && syscall_effect(mid, f, id, args, now, r);
    lemma_counting_keeps_tasks(o, mid, id);
    let c = o.processor.current.unwrap() as int;
    if id == SYSCALL_GET_TIME {
        crate::syscall::process::lemma_get_time_is_the_time(mid, f, args[0], now, r);
    }
    if id == SYSCALL_SBRK {
        crate::syscall::process::lemma_sbrk_moves_the_end(mid, f, args[0] as i32, r);
    }
    if id == SYSCALL_TASK_INFO && args[1] != 0 && args[1] + crate::syscall::process::TASK_INFO_SIZE <= usize::MAX && r == 0 {
        crate::syscall::process::lemma_task_info_read_back(mid, f, args[0], args[1], now);
    }
    if id == SYSCALL_GET_TASK_ID {
        assert(mid.tasks[c].pid == c) by {
            assert(o.tasks[c].wf_at(c, o.tasks.len() as int));
        }
    }
}

} // verus!
