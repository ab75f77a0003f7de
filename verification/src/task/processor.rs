//! The processor: which task runs, and the idle control flow.
use vstd::prelude::*;
use crate::task::context::TaskContext;

verus! {

/// The processor: the task running on it and the context of the idle
/// control flow that schedules the next task.
pub struct Processor {
    pub current: Option<usize>,
    pub idle_task_cx: TaskContext,
}

impl Processor {
    /// No task running; a zeroed idle context.
    pub fn new() -> (r: Self)
        ensures
            r.current is None,
            r.idle_task_cx.ra == 0,
            r.idle_task_cx.sp == 0,
    {
        Processor { current: None, idle_task_cx: TaskContext::zero_init() }
    }

    /// Takes the running task out of the processor.
    pub fn take_current(&mut self) -> (r: Option<usize>)
        ensures
            r == old(self).current,
            final(self).current is None,
            final(self).idle_task_cx == old(self).idle_task_cx,
    {
        let r = self.current;
        self.current = None;
        r
    }

    /// The running task.
    pub fn current(&self) -> (r: Option<usize>)
        ensures
            r == self.current,
    {
        self.current
    }
}

} // verus!

verus! {

use crate::task::{Kernel, TaskControlBlock, TaskStatus};
use crate::task::manager::fetch_task;
use crate::task::{lemma_wf_tasks_same_family, same_family, shutdown_if_no_tasks};
use crate::task::task::satp_token;
use crate::trap::context::TrapContext;

/// Takes the running task out of the processor.
pub fn take_current_task(k: &mut Kernel) -> (r: Option<usize>)
    ensures
        r == old(k).processor.current,
        final(k).processor.current is None,
        final(k).processor.idle_task_cx == old(k).processor.idle_task_cx,
        final(k).tasks == old(k).tasks,
        final(k).task_manager == old(k).task_manager,
        final(k).pid2tcb == old(k).pid2tcb,
        final(k).same_machine(old(k)),
{
    k.processor.take_current()
}

/// The running task.
pub fn current_task(k: &Kernel) -> (r: Option<usize>)
    ensures
        r == k.processor.current,
{
    k.processor.current()
}

/// The token of the running task's address space.
pub fn current_user_token(k: &Kernel) -> (r: usize)
    requires
        k.wf(),
        k.processor.current is Some,
    ensures
        r == satp_token(k.tasks[k.processor.current.unwrap() as int].memory_set.root_ppn),
{
    let cur = current_task(k).unwrap();
    k.tasks[cur].get_user_token()
}

/// The trap context of the running task.
pub fn current_trap_cx(k: &mut Kernel) -> (r: &mut TrapContext)
    requires
        old(k).wf(),
        old(k).processor.current is Some,
    ensures
        *r == old(k).tasks[old(k).processor.current.unwrap() as int].trap_cx,
        final(k).tasks@ == old(k).tasks@.update(
            old(k).processor.current.unwrap() as int,
            (TaskControlBlock { trap_cx: *final(r), ..old(k).tasks[old(k).processor.current.unwrap() as int] }),
        ),
        final(k).processor == old(k).processor,
        final(k).task_manager == old(k).task_manager,
        final(k).pid2tcb == old(k).pid2tcb,
        final(k).same_machine(old(k)),
{
    let cur = current_task(k).unwrap();
    &mut k.tasks[cur].trap_cx
}

/// One round of the idle control flow: takes the task at the front of the
/// ready queue, marks it Running (recording `now` as its first run if it
/// never ran) and makes it current; with no ready task, requests shutdown.
/// Returns the task to switch to.
pub fn run_tasks_step(k: &mut Kernel, now: usize) -> (r: Option<usize>)
    requires
        old(k).wf(),
        old(k).processor.current is None,
    ensures
        final(k).wf(),
        old(k).task_manager@.len() == 0 ==> {
            &&& r is None
            &&& final(k).shutdown == Some(false)
            &&& final(k).tasks == old(k).tasks
            &&& final(k).task_manager@ == old(k).task_manager@
            &&& final(k).processor == old(k).processor
        },
        old(k).task_manager@.len() > 0 ==> {
            let t = old(k).task_manager@[0];
            let old_t = old(k).tasks[t as int];
            &&& r == Some(t)
            &&& final(k).tasks@ == old(k).tasks@.update(
                t as int,
                (TaskControlBlock {
                    task_status: TaskStatus::Running,
                    first_schedule_time: if old_t.first_schedule_time == 0 { now } else { old_t.first_schedule_time },
                    ..old_t
                }),
            )
            &&& final(k).task_manager@ == old(k).task_manager@.drop_first()
            &&& final(k).processor.current == Some(t)
            &&& final(k).processor.idle_task_cx == old(k).processor.idle_task_cx
            &&& final(k).shutdown == old(k).shutdown
        },
        final(k).pid2tcb == old(k).pid2tcb,
        final(k).apps == old(k).apps,
        final(k).console == old(k).console,
        final(k).sstatus == old(k).sstatus,
        final(k).trap_handler_addr == old(k).trap_handler_addr,
        final(k).trap_return_addr == old(k).trap_return_addr,
        final(k).kernel_root_ppn == old(k).kernel_root_ppn,
        final(k).free_pids == old(k).free_pids,
{
    let task = match fetch_task(k) {
        Some(t) => t,
        None => {
            shutdown_if_no_tasks(k);
            return None;
        },
    };
    let ghost q = old(k).task_manager@;
    assert(q[0] == task);
    k.tasks[task].task_status = TaskStatus::Running;
    if k.tasks[task].first_schedule_time == 0 {
        k.tasks[task].first_schedule_time = now;
    }
    k.processor.current = Some(task);
    proof {
        let n = k.tasks.len();
        assert forall|i: int| 0 <= i < k.task_manager@.len() implies k.tasks[#[trigger] k.task_manager@[i] as int].task_status == TaskStatus::Ready by {
            assert(k.task_manager@[i] == q[i + 1]);
            assert(q[i + 1] != q[0]);
        }
        assert forall|p: int| 0 <= p < n && (#[trigger] k.tasks[p]).task_status == TaskStatus::Ready implies k.task_manager@.contains(p as usize) by {
            assert(p != task);
            assert(old(k).tasks[p].task_status == TaskStatus::Ready);
            assert(q.contains(p as usize));
            let i = choose|i: int| 0 <= i < q.len() && q[i] == p as usize;
            assert(i != 0);
            assert(k.task_manager@[i - 1] == p as usize);
        }
        assert forall|p: int| 0 <= p < n && (#[trigger] k.tasks[p]).task_status == TaskStatus::Running implies k.processor.current == Some(p as usize) by {
            if p != task {
                assert(old(k).tasks[p].task_status == TaskStatus::Running);
            }
        }
        assert forall|p: int| 0 <= p < n implies #[trigger] same_family(old(k).tasks[p], k.tasks[p]) by {}
        lemma_wf_tasks_same_family(*old(k), *k);
    }
    Some(task)
}

} // verus!
