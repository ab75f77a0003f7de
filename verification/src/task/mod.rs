//! Tasks: the kernel state that the scheduler works on, and the operations
//! that suspend, block and end the current task.
use vstd::prelude::*;
use std::collections::BTreeMap;
use crate::config::{IDLE_PID, KERNEL_STACK_SIZE, MAX_SYSCALL_NUM, MAX_TASKS, PAGE_SIZE, TRAMPOLINE};
use crate::fs::{app_named, open_file, App};
use crate::mm::UserMemory;
use crate::mm::page_table::{page_ceil, page_ceil_of, with_pages};
use crate::task::manager::{add_task, remove_from_pid2task};
use crate::task::processor::take_current_task;
use crate::trap::context::TrapContext;

pub mod context;
pub mod manager;
pub mod processor;
pub mod report;
pub mod signal;
pub mod task;

pub use context::TaskContext;
pub use manager::TaskManager;
pub use processor::Processor;
pub use signal::SignalFlags;
pub use task::{TaskControlBlock, TaskStatus};

verus! {

/// Top of the kernel stack of task `pid` (stacks grow down from the
/// trampoline, one guard page apart).
pub open spec fn kstack_top_spec(pid: int) -> int {
    TRAMPOLINE - pid * (KERNEL_STACK_SIZE + PAGE_SIZE)
}

/// Top of the kernel stack of task `pid`.
pub fn kernel_stack_top(pid: usize) -> (r: usize)
    requires
        pid < MAX_TASKS,
    ensures
        r == kstack_top_spec(pid as int),
{
    assert(pid * (KERNEL_STACK_SIZE + PAGE_SIZE) <= 0x1_0000 * 12288) by (nonlinear_arith)
        requires pid < 0x1_0000;
    TRAMPOLINE - pid * (KERNEL_STACK_SIZE + PAGE_SIZE)
}

/// The state of the kernel: every task ever created (indexed by pid), the
/// ready queue, the pid table, the processor, the applications of the file
/// system, and what the machine layer needs (addresses, pending console
/// output, a requested shutdown).
pub struct Kernel {
    pub tasks: Vec<TaskControlBlock>,
    pub task_manager: TaskManager,
    /// The live tasks by pid.
    pub pid2tcb: BTreeMap<usize, usize>,
    pub processor: Processor,
    /// Root page number of the kernel address space.
    pub kernel_root_ppn: usize,
    pub apps: Vec<App>,
    /// Address of `trap_handler`.
    pub trap_handler_addr: usize,
    /// Address of `trap_return`.
    pub trap_return_addr: usize,
    /// Value of the `sstatus` register when tasks are created.
    pub sstatus: usize,
    /// Bytes written to standard output, not yet sent to the console.
    pub console: Vec<u8>,
    /// `Some(failure)` once the machine is to be shut down.
    pub shutdown: Option<bool>,
    /// Pids of reaped tasks, free for reuse (the last freed is reused first).
    pub free_pids: Vec<usize>,
}

impl Kernel {
    /// Every task is well formed at its pid, no task is its own parent, the
    /// initial process has none, every child lists its parent, and no
    /// children list holds a pid twice.
    pub open spec fn wf_tasks(&self) -> bool {
        &&& self.tasks.len() <= MAX_TASKS
        &&& forall|p: int|
            0 <= p < self.tasks.len() ==> #[trigger] self.tasks[p].wf_at(p, self.tasks.len() as int)
        &&& forall|p: int|
            0 <= p < self.tasks.len() ==> ((#[trigger] self.tasks[p]).parent matches Some(q) ==> q != p)
        &&& self.tasks.len() > 0 ==> self.tasks[IDLE_PID as int].parent is None
        &&& forall|p: int, i: int|
            0 <= p < self.tasks.len() && 0 <= i < self.tasks[p].children.len() ==> #[trigger] self.tasks[self.tasks[p].children[i] as int].parent
                == Some(p as usize)
        &&& forall|p: int, i: int, j: int|
            0 <= p < self.tasks.len() && 0 <= i < j < self.tasks[p].children.len() ==> #[trigger] self.tasks[p].children[i]
                != #[trigger] self.tasks[p].children[j]
        &&& self.wf_free()
        &&& forall|i: int| 0 <= i < self.apps.len() ==> (#[trigger] self.apps[i]).wf()
    }

    /// The free pids are distinct reaped tasks: exited, not the initial
    /// process, and in no children list.
    pub open spec fn wf_free(&self) -> bool {
        &&& forall|i: int|
            0 <= i < self.free_pids.len() ==> #[trigger] self.free_pids[i] < self.tasks.len() && self.free_pids[i]
                != IDLE_PID && self.tasks[self.free_pids[i] as int].task_status == TaskStatus::Exited
        &&& forall|i: int, j: int|
            0 <= i < j < self.free_pids.len() ==> #[trigger] self.free_pids[i] != #[trigger] self.free_pids[j]
        &&& forall|p: int, i: int, j: int|
            0 <= p < self.tasks.len() && 0 <= i < self.tasks[p].children.len() && 0 <= j < self.free_pids.len()
                ==> #[trigger] self.tasks[p].children[i] != #[trigger] self.free_pids[j]
    }

    /// The ready queue holds exactly the Ready tasks, each once.
    pub open spec fn wf_queue(&self) -> bool {
        &&& forall|i: int|
            0 <= i < self.task_manager@.len() ==> #[trigger] self.task_manager@[i] < self.tasks.len()
        &&& forall|i: int|
            0 <= i < self.task_manager@.len() ==> self.tasks[#[trigger] self.task_manager@[i] as int].task_status
                == TaskStatus::Ready
        &&& forall|i: int, j: int|
            0 <= i < j < self.task_manager@.len() ==> #[trigger] self.task_manager@[i]
                != #[trigger] self.task_manager@[j]
        &&& forall|p: int|
            0 <= p < self.tasks.len() && (#[trigger] self.tasks[p]).task_status == TaskStatus::Ready
                ==> self.task_manager@.contains(p as usize)
    }

    /// Exactly the current task is Running.
    pub open spec fn wf_current(&self) -> bool {
        &&& (self.processor.current matches Some(c) ==> c < self.tasks.len()
            && self.tasks[c as int].task_status == TaskStatus::Running)
        &&& forall|p: int|
            0 <= p < self.tasks.len() && (#[trigger] self.tasks[p]).task_status == TaskStatus::Running
                ==> self.processor.current == Some(p as usize)
    }

    /// The pid table maps pids to themselves and holds every task that has
    /// not exited.
    pub open spec fn wf_pid2tcb(&self) -> bool {
        &&& forall|p: usize| #[trigger]
            self.pid2tcb@.contains_key(p) ==> p < self.tasks.len() && self.pid2tcb@[p] == p
        &&& forall|p: int|
            0 <= p < self.tasks.len() && (#[trigger] self.tasks[p]).task_status != TaskStatus::Exited
                ==> self.pid2tcb@.contains_key(p as usize)
    }

    /// The kernel invariant.
    pub open spec fn wf(&self) -> bool {
        &&& self.wf_tasks()
        &&& self.wf_queue()
        &&& self.wf_current()
        &&& self.wf_pid2tcb()
    }

    /// `self` and `other` agree on everything but the ready queue and the
    /// pid table.
    pub open spec fn same_except_tables(&self, other: &Kernel) -> bool {
        &&& self.tasks == other.tasks
        &&& self.processor == other.processor
        &&& self.same_machine(other)
    }

    /// `self` and `other` agree on the applications, the addresses, the
    /// console, the shutdown request and the free pids.
    pub open spec fn same_machine(&self, other: &Kernel) -> bool {
        &&& self.same_env(other)
        &&& self.free_pids == other.free_pids
    }

    /// `self` and `other` agree on the applications, the addresses, the
    /// console and the shutdown request.
    pub open spec fn same_env(&self, other: &Kernel) -> bool {
        &&& self.apps == other.apps
        &&& self.kernel_root_ppn == other.kernel_root_ppn
        &&& self.trap_handler_addr == other.trap_handler_addr
        &&& self.trap_return_addr == other.trap_return_addr
        &&& self.sstatus == other.sstatus
        &&& self.console == other.console
        &&& self.shutdown == other.shutdown
    }

    /// A kernel with no task yet.
    pub fn new(
        apps: Vec<App>,
        kernel_root_ppn: usize,
        trap_handler_addr: usize,
        trap_return_addr: usize,
        sstatus: usize,
    ) -> (r: Self)
        requires
            forall|i: int| 0 <= i < apps.len() ==> (#[trigger] apps[i]).wf(),
        ensures
            r.wf(),
            r.tasks.len() == 0,
            r.task_manager@ == Seq::<usize>::empty(),
            r.pid2tcb@ == Map::<usize, usize>::empty(),
            r.processor.current is None,
            r.apps == apps,
            r.kernel_root_ppn == kernel_root_ppn,
            r.trap_handler_addr == trap_handler_addr,
            r.trap_return_addr == trap_return_addr,
            r.sstatus == sstatus,
            r.console@ == Seq::<u8>::empty(),
            r.shutdown is None,
            r.free_pids@ == Seq::<usize>::empty(),
    {
        Kernel {
            tasks: Vec::new(),
            task_manager: TaskManager::new(),
            pid2tcb: BTreeMap::new(),
            processor: Processor::new(),
            kernel_root_ppn,
            apps,
            trap_handler_addr,
            trap_return_addr,
            sstatus,
            console: Vec::new(),
            shutdown: None,
            free_pids: Vec::new(),
        }
    }
}

/// `b` keeps the pid, family and counter table of `a`, a well-formed
/// address space and heap if `a` has them, and is exited if `a` is.
pub open spec fn same_family(a: TaskControlBlock, b: TaskControlBlock) -> bool {
    &&& b.pid == a.pid
    &&& (a.task_status == TaskStatus::Exited ==> b.task_status == TaskStatus::Exited)
    &&& b.parent == a.parent
    &&& b.children == a.children
    &&& b.syscall_times.len() == a.syscall_times.len()
    &&& (a.memory_set.wf() && a.heap_bottom <= a.program_brk <= a.memory_set.bytes.len()
        ==> b.memory_set.wf() && b.heap_bottom <= b.program_brk <= b.memory_set.bytes.len())
}

/// Changing tasks in ways that keep their families keeps the task invariant.
pub proof fn lemma_wf_tasks_same_family(a: Kernel, b: Kernel)
    requires
        a.wf_tasks(),
        b.tasks.len() == a.tasks.len(),
        b.apps == a.apps,
        b.free_pids@ == a.free_pids@,
        forall|p: int| 0 <= p < a.tasks.len() ==> #[trigger] same_family(a.tasks[p], b.tasks[p]),
    ensures
        b.wf_tasks(),
{
    let n = a.tasks.len();
    assert forall|p: int| 0 <= p < n implies #[trigger] b.tasks[p].wf_at(p, n as int) by {
        assert(a.tasks[p].wf_at(p, n as int));
        assert(same_family(a.tasks[p], b.tasks[p]));
        assert forall|i: int| 0 <= i < b.tasks[p].children.len() implies #[trigger] b.tasks[p].children[i] < n by {
            assert(a.tasks[p].children[i] < n);
        }
    }
    assert forall|p: int| 0 <= p < n implies ((#[trigger] b.tasks[p]).parent matches Some(q) ==> q != p) by {
        assert(same_family(a.tasks[p], b.tasks[p]));
    }
    if n > 0 {
        assert(same_family(a.tasks[0], b.tasks[0]));
    }
    assert forall|p: int, i: int, j: int| 0 <= p < n && 0 <= i < j < b.tasks[p].children.len() implies #[trigger] b.tasks[p].children[i]
        != #[trigger] b.tasks[p].children[j] by {
        assert(same_family(a.tasks[p], b.tasks[p]));
        assert(a.tasks[p].children[i] != a.tasks[p].children[j]);
    }
    assert forall|i: int| 0 <= i < b.free_pids.len() implies #[trigger] b.free_pids[i] < n && b.free_pids[i]
        != IDLE_PID && b.tasks[b.free_pids[i] as int].task_status == TaskStatus::Exited by {
        assert(b.free_pids[i] == a.free_pids[i]);
        assert(same_family(a.tasks[a.free_pids[i] as int], b.tasks[a.free_pids[i] as int]));
    }
    assert forall|i: int, j: int| 0 <= i < j < b.free_pids.len() implies #[trigger] b.free_pids[i] != #[trigger] b.free_pids[j] by {
        assert(b.free_pids[i] == a.free_pids[i] && b.free_pids[j] == a.free_pids[j]);
    }
    assert forall|p: int, i: int, j: int| 0 <= p < n && 0 <= i < b.tasks[p].children.len() && 0 <= j < b.free_pids.len()
        implies #[trigger] b.tasks[p].children[i] != #[trigger] b.free_pids[j] by {
        assert(same_family(a.tasks[p], b.tasks[p]));
        assert(b.free_pids[j] == a.free_pids[j]);
        assert(a.tasks[p].children[i] != a.free_pids[j]);
    }
    assert forall|p: int, i: int| 0 <= p < n && 0 <= i < b.tasks[p].children.len() implies #[trigger] b.tasks[b.tasks[p].children[i] as int].parent == Some(p as usize) by {
        assert(same_family(a.tasks[p], b.tasks[p]));
        let c = a.tasks[p].children[i];
        assert(a.tasks[p].wf_at(p, n as int));
        assert(c < n);
        assert(same_family(a.tasks[c as int], b.tasks[c as int]));
        assert(a.tasks[a.tasks[p].children[i] as int].parent == Some(p as usize));
    }
}

/// Changing tasks without touching their families or statuses, or the
/// queue, the current task and the pid table, keeps the kernel invariant.
pub proof fn lemma_wf_same_statuses(a: Kernel, b: Kernel)
    requires
        a.wf(),
        b.tasks.len() == a.tasks.len(),
        b.apps == a.apps,
        b.free_pids@ == a.free_pids@,
        b.task_manager@ == a.task_manager@,
        b.processor.current == a.processor.current,
        b.pid2tcb@ == a.pid2tcb@,
        forall|p: int|
            0 <= p < a.tasks.len() ==> #[trigger] same_family(a.tasks[p], b.tasks[p])
                && b.tasks[p].task_status == a.tasks[p].task_status,
    ensures
        b.wf(),
{
    lemma_wf_tasks_same_family(a, b);
    let n = a.tasks.len();
    assert forall|p: int| 0 <= p < n && (#[trigger] b.tasks[p]).task_status == TaskStatus::Ready implies b.task_manager@.contains(p as usize) by {
        assert(same_family(a.tasks[p], b.tasks[p]));
    }
    assert forall|i: int| 0 <= i < b.task_manager@.len() implies b.tasks[#[trigger] b.task_manager@[i] as int].task_status == TaskStatus::Ready by {
        let q = b.task_manager@[i] as int;
        assert(same_family(a.tasks[q], b.tasks[q]));
    }
    assert forall|p: int| 0 <= p < n && (#[trigger] b.tasks[p]).task_status == TaskStatus::Running implies b.processor.current == Some(p as usize) by {
        assert(same_family(a.tasks[p], b.tasks[p]));
    }
    assert forall|p: int| 0 <= p < n && (#[trigger] b.tasks[p]).task_status != TaskStatus::Exited implies b.pid2tcb@.contains_key(p as usize) by {
        assert(same_family(a.tasks[p], b.tasks[p]));
    }
    if let Some(c) = b.processor.current {
        assert(same_family(a.tasks[c as int], b.tasks[c as int]));
    }
}

/// The current task `t` leaving the processor Blocked or Exited, with its
/// family kept and everything else of the tasks, the queue and the pid
/// table unchanged, keeps the kernel invariant.
pub proof fn lemma_wf_current_leaves(a: Kernel, b: Kernel, t: usize)
    requires
        a.wf(),
        a.processor.current == Some(t),
        b.processor.current is None,
        b.tasks.len() == a.tasks.len(),
        b.apps == a.apps,
        b.free_pids@ == a.free_pids@,
        b.task_manager@ == a.task_manager@,
        b.pid2tcb@ == a.pid2tcb@,
        b.tasks[t as int].task_status == TaskStatus::Blocked || b.tasks[t as int].task_status == TaskStatus::Exited,
        same_family(a.tasks[t as int], b.tasks[t as int]),
        forall|p: int| 0 <= p < a.tasks.len() && p != t ==> #[trigger] b.tasks[p] == a.tasks[p],
    ensures
        b.wf(),
{
    let n = a.tasks.len();
    assert forall|p: int| 0 <= p < n implies #[trigger] same_family(a.tasks[p], b.tasks[p]) by {
        if p != t {
            assert(b.tasks[p] == a.tasks[p]);
        }
    }
    lemma_wf_tasks_same_family(a, b);
    let q = b.task_manager@;
    assert forall|i: int| 0 <= i < q.len() implies b.tasks[#[trigger] q[i] as int].task_status == TaskStatus::Ready by {
        assert(a.tasks[q[i] as int].task_status == TaskStatus::Ready);
        assert(q[i] != t);
        assert(b.tasks[q[i] as int] == a.tasks[q[i] as int]);
    }
    assert forall|p: int| 0 <= p < n && (#[trigger] b.tasks[p]).task_status == TaskStatus::Ready implies q.contains(p as usize) by {
        assert(b.tasks[p] == a.tasks[p]);
    }
    assert forall|p: int| 0 <= p < n && (#[trigger] b.tasks[p]).task_status == TaskStatus::Running implies b.processor.current == Some(p as usize) by {
        assert(b.tasks[p] == a.tasks[p]);
    }
    assert forall|p: int| 0 <= p < n && (#[trigger] b.tasks[p]).task_status != TaskStatus::Exited implies b.pid2tcb@.contains_key(p as usize) by {
        if p != t {
            assert(b.tasks[p] == a.tasks[p]);
        }
    }
}

/// Requests that the machine be shut down (successfully): no task is left to run.
pub fn shutdown_if_no_tasks(k: &mut Kernel)
    ensures
        *final(k) == (Kernel { shutdown: Some(false), ..*old(k) }),
{
    k.shutdown = Some(false);
}

/// Name of the application that the initial process runs: `initproc`.
pub const INITPROC_NAME: [u8; 8] = [105, 110, 105, 116, 112, 114, 111, 99];

/// What `suspend_current_and_run_next` does, from kernel `o` to kernel `f`.
pub open spec fn suspend_spec(o: Kernel, f: Kernel, r: usize) -> bool {
    &&& r == o.processor.current.unwrap()
    &&& f.tasks@ == o.tasks@.update(
            r as int,
            (TaskControlBlock { task_status: TaskStatus::Ready, ..o.tasks[r as int] }),
        )
    &&& f.task_manager@ == o.task_manager@.push(r)
    &&& f.pid2tcb@ == o.pid2tcb@
    &&& f.processor.current is None
    &&& f.processor.idle_task_cx == o.processor.idle_task_cx
    &&& f.same_machine(&o)
}

/// The task that the scheduler would switch away from: the current one is
/// made Ready and appended to the ready queue. Returns its pid (the context
/// switch to the idle flow is the machine layer's).
pub fn suspend_current_and_run_next(k: &mut Kernel) -> (r: usize)
    requires
        old(k).wf(),
        old(k).processor.current is Some,
    ensures
        final(k).wf(),
        suspend_spec(*old(k), *final(k), r),
{
    broadcast use vstd::std_specs::btree::group_btree_axioms;
    let task = take_current_task(k).unwrap();
    let ghost q = old(k).task_manager@;
    k.tasks[task].task_status = TaskStatus::Ready;
    add_task(k, task);
    proof {
        let n = k.tasks.len();
        assert(old(k).pid2tcb@.contains_key(task));
        assert(k.pid2tcb@ =~= old(k).pid2tcb@);
        assert forall|i: int| 0 <= i < q.len() implies q[i] != task by {
            assert(old(k).tasks[q[i] as int].task_status == TaskStatus::Ready);
        }
        assert(k.task_manager@[q.len() as int] == task);
        assert forall|i: int| 0 <= i < k.task_manager@.len() implies k.tasks[#[trigger] k.task_manager@[i] as int].task_status == TaskStatus::Ready by {
            if i < q.len() {
                assert(k.task_manager@[i] == q[i]);
            }
        }
        assert forall|i: int, j: int| 0 <= i < j < k.task_manager@.len() implies #[trigger] k.task_manager@[i] != #[trigger] k.task_manager@[j] by {
            if j < q.len() {
                assert(k.task_manager@[i] == q[i] && k.task_manager@[j] == q[j]);
            } else {
                assert(k.task_manager@[i] == q[i]);
            }
        }
        assert forall|p: int| 0 <= p < n && (#[trigger] k.tasks[p]).task_status == TaskStatus::Ready implies k.task_manager@.contains(p as usize) by {
            if p == task {
                assert(k.task_manager@[q.len() as int] == task);
            } else {
                assert(q.contains(p as usize));
                let i = choose|i: int| 0 <= i < q.len() && q[i] == p as usize;
                assert(k.task_manager@[i] == p as usize);
            }
        }
        assert forall|p: int| 0 <= p < n && (#[trigger] k.tasks[p]).task_status == TaskStatus::Running implies k.processor.current == Some(p as usize) by {
            assert(p != task);
            assert(old(k).tasks[p].task_status == TaskStatus::Running);
        }
        assert forall|p: int| 0 <= p < n && (#[trigger] k.tasks[p]).task_status != TaskStatus::Exited implies k.pid2tcb@.contains_key(p as usize) by {
            if p != task {
                assert(old(k).tasks[p].task_status != TaskStatus::Exited);
            }
        }
        assert forall|p: int| 0 <= p < n implies #[trigger] same_family(old(k).tasks[p], k.tasks[p]) by {}
        lemma_wf_tasks_same_family(*old(k), *k);
    }
    task
}

/// The current task is marked Blocked and leaves the processor (it is not
/// queued). Returns its pid.
pub fn block_current_and_run_next(k: &mut Kernel) -> (r: usize)
    requires
        old(k).wf(),
        old(k).processor.current is Some,
    ensures
        final(k).wf(),
        r == old(k).processor.current.unwrap(),
        final(k).tasks@ == old(k).tasks@.update(
            r as int,
            (TaskControlBlock { task_status: TaskStatus::Blocked, ..old(k).tasks[r as int] }),
        ),
        final(k).task_manager@ == old(k).task_manager@,
        final(k).pid2tcb == old(k).pid2tcb,
        final(k).processor.current is None,
        final(k).processor.idle_task_cx == old(k).processor.idle_task_cx,
        final(k).same_machine(old(k)),
{
    let task = take_current_task(k).unwrap();
    k.tasks[task].task_status = TaskStatus::Blocked;
    proof {
        lemma_wf_current_leaves(*old(k), *k, task);
    }
    task
}

/// Removes task `task` from the ready queue (its first occurrence, if any).
pub fn remove_inactive_task(k: &mut Kernel, task: usize)
    ensures
        !old(k).task_manager@.contains(task) ==> final(k).task_manager@ == old(k).task_manager@,
        manager::first_index(old(k).task_manager@, task) matches Some(i)
            ==> final(k).task_manager@ == old(k).task_manager@.remove(i),
        final(k).pid2tcb == old(k).pid2tcb,
        final(k).same_except_tables(old(k)),
{
    k.task_manager.remove(task);
}

/// What `record_syscall_times` does, from kernel `o` to kernel `f`.
pub open spec fn record_syscall_times_spec(o: Kernel, f: Kernel, syscall_id: usize) -> bool {
    &&& ((syscall_id >= MAX_SYSCALL_NUM || o.processor.current is None) ==> f == o)
    &&& ((syscall_id < MAX_SYSCALL_NUM && o.processor.current is Some) ==> {
            let t = o.processor.current.unwrap() as int;
            let times = o.tasks[t].syscall_times;
            &&& f.tasks.len() == o.tasks.len()
            &&& forall|p: int| 0 <= p < o.tasks.len() && p != t ==> f.tasks[p] == o.tasks[p]
            &&& f.tasks[t].syscall_times@ == times@.update(
                syscall_id as int,
                (if times[syscall_id as int] == u32::MAX { 0u32 } else { (times[syscall_id as int] + 1) as u32 }),
            )
            &&& f.tasks[t] == (TaskControlBlock {
                syscall_times: f.tasks[t].syscall_times,
                ..o.tasks[t]
            })
            &&& f.task_manager == o.task_manager
            &&& f.pid2tcb == o.pid2tcb
            &&& f.processor == o.processor
            &&& f.same_machine(&o)
        })
}

/// Counts one call of system call `syscall_id` for the current task, if
/// there is one and the id is below `MAX_SYSCALL_NUM` (the counter wraps).
pub fn record_syscall_times(k: &mut Kernel, syscall_id: usize)
    requires
        old(k).wf(),
    ensures
        final(k).wf(),
        record_syscall_times_spec(*old(k), *final(k), syscall_id),
{
    if syscall_id >= MAX_SYSCALL_NUM {
        return;
    }
    if let Some(task) = k.processor.current() {
        proof { assert(k.tasks[task as int].wf_at(task as int, k.tasks.len() as int)); }
        let v = k.tasks[task].syscall_times[syscall_id];
        let nv = v.wrapping_add(1);
        k.tasks[task].syscall_times.set(syscall_id, nv);
        proof {
            assert forall|p: int| 0 <= p < k.tasks.len() implies #[trigger] same_family(old(k).tasks[p], k.tasks[p])
                && k.tasks[p].task_status == old(k).tasks[p].task_status by {}
            lemma_wf_same_statuses(*old(k), *k);
        }
    }
}

/// What `sys_task_info` reports of a task.
pub struct TaskSnapshot {
    pub id: usize,
    pub status: TaskStatus,
    pub syscall_times: Vec<u32>,
    pub time_ms: usize,
}

/// Milliseconds that a task first scheduled at `first` (0: never) has
/// existed at time `now`.
pub open spec fn run_time_ms(first: usize, now: usize) -> usize {
    if first == 0 {
        0
    } else if now >= first {
        (now - first) as usize
    } else {
        0
    }
}

/// A snapshot of task `pid` at time `now`: `None` when no live task has
/// that pid.
pub fn get_task_snapshot(k: &Kernel, pid: usize, now: usize) -> (r: Option<TaskSnapshot>)
    requires
        k.wf(),
    ensures
        r is Some <==> (k.pid2tcb@.contains_key(pid) || k.processor.current == Some(pid)),
        r matches Some(s) ==> {
            &&& pid < k.tasks.len()
            &&& s.id == pid
            &&& s.status == k.tasks[pid as int].task_status
            &&& s.syscall_times@ == k.tasks[pid as int].syscall_times@
            &&& s.time_ms == run_time_ms(k.tasks[pid as int].first_schedule_time, now)
        },
{
    let task = match k.processor.current() {
        Some(cur) => {
            if cur == pid {
                cur
            } else {
                match manager::pid2task(k, pid) {
                    Some(t) => t,
                    None => return None,
                }
            }
        },
        None => match manager::pid2task(k, pid) {
            Some(t) => t,
            None => return None,
        },
    };
    let first = k.tasks[task].first_schedule_time;
    let time_ms = if first == 0 {
        0
    } else {
        now.saturating_sub(first)
    };
    let syscall_times = k.tasks[task].syscall_times.clone();
    assert(syscall_times@ =~= k.tasks[task as int].syscall_times@);
    Some(TaskSnapshot { id: pid, status: k.tasks[task].task_status, syscall_times, time_ms })
}

/// Creates the initial process from the `initproc` application (once) and
/// makes it ready.
pub fn add_initproc(k: &mut Kernel)
    requires
        old(k).wf(),
        old(k).tasks.len() == 0 ==> exists|j: int|
            0 <= j < old(k).apps.len() && (#[trigger] old(k).apps[j]).name@ == INITPROC_NAME@,
    ensures
        final(k).wf(),
        final(k).tasks.len() > 0,
        old(k).tasks.len() > 0 ==> *final(k) == *old(k),
        old(k).tasks.len() == 0 ==> {
            &&& final(k).tasks.len() == 1
            &&& exists|i: int| #[trigger] app_named(old(k).apps@, INITPROC_NAME@, i)
                && fresh_task(*old(k), IDLE_PID, i, None, final(k).tasks[0])
            &&& final(k).task_manager@ == seq![IDLE_PID]
            &&& final(k).pid2tcb@ == map![IDLE_PID => IDLE_PID]
            &&& final(k).processor == old(k).processor
            &&& final(k).same_machine(old(k))
        },
{
    broadcast use vstd::std_specs::btree::group_btree_axioms;
    if k.tasks.len() > 0 {
        return;
    }
    let name = INITPROC_NAME.as_slice();
    assert(name@ == INITPROC_NAME@);
    let app = open_file(&k.apps, name).unwrap();
    let tcb = new_task_from_app(k, IDLE_PID, app, None);
    assert(app_named(old(k).apps@, INITPROC_NAME@, app as int));
    k.tasks.push(tcb);
    add_task(k, IDLE_PID);
    proof {
        assert(k.pid2tcb@ =~= map![IDLE_PID => IDLE_PID]) by {
            assert(old(k).pid2tcb@ =~= Map::empty()) by {
                assert forall|p: usize| !old(k).pid2tcb@.contains_key(p) by {
                    if old(k).pid2tcb@.contains_key(p) {
                        assert(p < 0);
                    }
                }
            }
        }
        assert(k.task_manager@ =~= seq![IDLE_PID]) by {
            assert(old(k).task_manager@.len() == 0) by {
                if old(k).task_manager@.len() > 0 {
                    assert(old(k).task_manager@[0] < 0);
                }
            }
        }
        assert(k.tasks[0].wf_at(0, 1));
        assert(k.processor.current is None);
        assert(k.wf_tasks());
        assert(k.task_manager@[0] == IDLE_PID);
        assert forall|p: int| 0 <= p < k.tasks.len() && (#[trigger] k.tasks[p]).task_status == TaskStatus::Ready implies k.task_manager@.contains(p as usize) by {
            assert(p == 0);
            assert(k.task_manager@[0] == p as usize);
        }
        assert(k.wf_queue());
        assert(k.wf_current());
        assert(k.wf_pid2tcb());
    }
}

/// `r` is a fresh Ready task `pid` with parent `parent`, about to start
/// application `app` of `k`: a copy of the app's address space, a trap
/// context at its entry point and user stack, a context that returns to
/// user mode, no children, no calls counted, never run.
pub open spec fn fresh_task(k: Kernel, pid: usize, app: int, parent: Option<usize>, r: TaskControlBlock) -> bool {
    let a = k.apps[app];
    &&& r.pid == pid
    &&& r.task_status == TaskStatus::Ready
    &&& r.parent == parent
    &&& r.children@ == Seq::<usize>::empty()
    &&& r.memory_set.wf()
    &&& r.memory_set.bytes@ == a.memory.bytes@
    &&& r.memory_set.mapped@ == a.memory.mapped@
    &&& r.memory_set.root_ppn == a.memory.root_ppn
    &&& r.syscall_times@ == Seq::new(MAX_SYSCALL_NUM as nat, |i: int| 0u32)
    &&& r.first_schedule_time == 0
    &&& r.exit_code == 0
    &&& r.signals.bits == 0
    &&& r.heap_bottom == a.heap_bottom
    &&& r.program_brk == a.heap_bottom
    &&& r.kernel_stack_top == kstack_top_spec(pid as int)
    &&& r.task_cx.ra == k.trap_return_addr
    &&& r.task_cx.sp == r.kernel_stack_top
    &&& r.trap_cx.x@ == Seq::new(32, |i: int| if i == 2 { a.user_sp } else { 0usize })
    &&& r.trap_cx.sepc == a.entry
    &&& r.trap_cx.kernel_satp == task::satp_token(k.kernel_root_ppn)
    &&& r.trap_cx.kernel_sp == r.kernel_stack_top
    &&& r.trap_cx.trap_handler == k.trap_handler_addr
    &&& r.trap_cx.sstatus == crate::trap::context::sstatus_user_spp(k.sstatus)
}

/// A fresh Ready task `pid` running application `app` with parent `parent`.
fn new_task_from_app(k: &Kernel, pid: usize, app: usize, parent: Option<usize>) -> (r: TaskControlBlock)
    requires
        pid < MAX_TASKS,
        app < k.apps.len(),
        k.apps[app as int].wf(),
    ensures
        fresh_task(*k, pid, app as int, parent, r),
{
    let kstack = kernel_stack_top(pid);
    let a = &k.apps[app];
    let memory_set = a.memory.from_existed_user();
    let trap_cx = TrapContext::app_init_context(
        a.entry,
        a.user_sp,
        crate::task::task::token_of(k.kernel_root_ppn),
        kstack,
        k.trap_handler_addr,
        k.sstatus,
    );
    let syscall_times = vec![0u32; MAX_SYSCALL_NUM];
    assert(syscall_times@ =~= Seq::new(MAX_SYSCALL_NUM as nat, |i: int| 0u32));
    TaskControlBlock {
        pid,
        kernel_stack_top: kstack,
        task_status: TaskStatus::Ready,
        task_cx: TaskContext::goto_trap_return(kstack, k.trap_return_addr),
        trap_cx,
        memory_set,
        heap_bottom: a.heap_bottom,
        program_brk: a.heap_bottom,
        parent,
        children: Vec::new(),
        exit_code: 0,
        syscall_times,
        first_schedule_time: 0,
        signals: SignalFlags::empty(),
    }
}

/// The error that the pending signals of the current task mean, if any.
pub fn check_signals_error_of_current(k: &Kernel) -> (r: Option<(i32, &'static str)>)
    requires
        k.wf(),
        k.processor.current is Some,
    ensures
        r is None <==> signal::signal_error_code(k.tasks[k.processor.current.unwrap() as int].signals.bits) is None,
        r matches Some((code, msg)) ==> signal::signal_error_code(
            k.tasks[k.processor.current.unwrap() as int].signals.bits,
        ) == Some(code) && msg == signal::signal_error_message(
            k.tasks[k.processor.current.unwrap() as int].signals.bits,
        ),
{
    let cur = k.processor.current().unwrap();
    k.tasks[cur].signals.check_error()
}

/// What `current_add_signal` does, from kernel `o` to kernel `f`.
pub open spec fn add_signal_spec(o: Kernel, f: Kernel, signal: SignalFlags) -> bool {
    &&& f.tasks@ == o.tasks@.update(
            o.processor.current.unwrap() as int,
            (TaskControlBlock {
                signals: SignalFlags {
                    bits: o.tasks[o.processor.current.unwrap() as int].signals.bits | signal.bits,
                },
                ..o.tasks[o.processor.current.unwrap() as int]
            }),
        )
    &&& f.task_manager == o.task_manager
    &&& f.pid2tcb == o.pid2tcb
    &&& f.processor == o.processor
    &&& f.same_machine(&o)
}

/// Raises `signal` on the current task.
pub fn current_add_signal(k: &mut Kernel, signal: SignalFlags)
    requires
        old(k).wf(),
        old(k).processor.current is Some,
    ensures
        final(k).wf(),
        add_signal_spec(*old(k), *final(k), signal),
{
    let cur = k.processor.current().unwrap();
    k.tasks[cur].signals.insert(signal);
    proof {
        assert forall|p: int| 0 <= p < k.tasks.len() implies #[trigger] same_family(old(k).tasks[p], k.tasks[p])
            && k.tasks[p].task_status == old(k).tasks[p].task_status by {}
        lemma_wf_same_statuses(*old(k), *k);
    }
}

/// Delivers pending signals to handlers: this kernel has none, so nothing
/// changes.
pub fn handle_signals(k: &mut Kernel)
    ensures
        *final(k) == *old(k),
{
}

/// What `exit_current_and_run_next` does, from kernel `o` to kernel `f`.
pub open spec fn exit_current_spec(o: Kernel, f: Kernel, exit_code: i32) -> bool {
    &&& f.processor.current is None
    &&& f.processor.idle_task_cx == o.processor.idle_task_cx
    &&& f.task_manager@ == o.task_manager@
    &&& f.apps == o.apps
    &&& f.kernel_root_ppn == o.kernel_root_ppn
    &&& f.trap_handler_addr == o.trap_handler_addr
    &&& f.trap_return_addr == o.trap_return_addr
    &&& f.sstatus == o.sstatus
    &&& f.free_pids == o.free_pids
    &&& ({
            let t = o.processor.current.unwrap();
            let ot = o.tasks[t as int];
            t == IDLE_PID ==> {
                &&& f.tasks@ == o.tasks@.update(
                    t as int,
                    (TaskControlBlock { task_status: TaskStatus::Exited, exit_code: exit_code, ..ot }),
                )
                &&& f.shutdown == Some(exit_code != 0)
                &&& f.console@ == o.console@ + report::idle_exit_message(exit_code)
                &&& f.pid2tcb == o.pid2tcb
            }
        })
    &&& ({
            let t = o.processor.current.unwrap();
            let ot = o.tasks[t as int];
            let ch = ot.children@;
            t != IDLE_PID ==> {
                &&& f.shutdown == o.shutdown
                &&& f.console == o.console
                &&& f.pid2tcb@ == o.pid2tcb@.remove(t)
                &&& f.tasks.len() == o.tasks.len()
                &&& f.tasks[t as int] == (TaskControlBlock {
                    task_status: TaskStatus::Exited,
                    exit_code: exit_code,
                    children: f.tasks[t as int].children,
                    memory_set: f.tasks[t as int].memory_set,
                    ..ot
                })
                &&& f.tasks[t as int].children@ == Seq::<usize>::empty()
                &&& f.tasks[t as int].memory_set.mapped@ == Seq::new(
                    ot.memory_set.mapped.len() as nat,
                    |i: int| false,
                )
                &&& f.tasks[t as int].memory_set.bytes == ot.memory_set.bytes
                &&& f.tasks[t as int].memory_set.root_ppn == ot.memory_set.root_ppn
                &&& f.tasks[IDLE_PID as int] == (TaskControlBlock {
                    children: f.tasks[IDLE_PID as int].children,
                    ..o.tasks[IDLE_PID as int]
                })
                &&& f.tasks[IDLE_PID as int].children@ == o.tasks[IDLE_PID as int].children@ + ch
                &&& forall|p: int|
                    0 <= p < o.tasks.len() && ch.contains(p as usize) ==> #[trigger] f.tasks[p]
                        == (TaskControlBlock { parent: Some(IDLE_PID), ..o.tasks[p] })
                &&& forall|p: int|
                    0 <= p < o.tasks.len() && p != t && p != IDLE_PID && !ch.contains(p as usize)
                        ==> #[trigger] f.tasks[p] == o.tasks[p]
            }
        })
}

/// The current task exits with `exit_code`: it leaves the processor and
/// becomes a zombie. If it is the initial process, a line saying so goes
/// to the console and the machine is to shut down (failing when the code is
/// not 0); otherwise it leaves the pid table,
/// its children are handed to the initial process, its address space is
/// recycled, and it leaves the ready queue.
pub fn exit_current_and_run_next(k: &mut Kernel, exit_code: i32)
    requires
        old(k).wf(),
        old(k).processor.current is Some,
    ensures
        final(k).wf(),
        exit_current_spec(*old(k), *final(k), exit_code),
{
    broadcast use vstd::std_specs::btree::group_btree_axioms;
    let task = take_current_task(k).unwrap();
    proof {
        assert(k.tasks[task as int].wf_at(task as int, k.tasks.len() as int));
    }
    k.tasks[task].exit_code = exit_code;
    k.tasks[task].task_status = TaskStatus::Exited;
    if task == IDLE_PID {
        let mut line = report::idle_exit_line(exit_code);
        k.console.append(&mut line);
        k.shutdown = Some(exit_code != 0);
        proof {
            lemma_wf_current_leaves(*old(k), *k, task);
        }
        assert(k.tasks@ =~= old(k).tasks@.update(
            task as int,
            (TaskControlBlock { task_status: TaskStatus::Exited, exit_code: exit_code, ..old(k).tasks[task as int] }),
        ));
        assert(k.processor.current is None);
        assert(k.task_manager@ == old(k).task_manager@);
        return;
    }
    assert(old(k).pid2tcb@.contains_key(task));
    remove_from_pid2task(k, task);
    let ghost mid = *k;
    let ghost ch = mid.tasks[task as int].children@;
    let ghost len = mid.tasks.len() as int;
    proof {
        assert(0 < len);
        assert forall|j: int| 0 <= j < ch.len() implies #[trigger] ch[j] < len && ch[j] != IDLE_PID && ch[j] != task by {
            assert(old(k).tasks[task as int].children[j] == ch[j]);
            assert(old(k).tasks[task as int].wf_at(task as int, len));
            assert(old(k).tasks[ch[j] as int].parent == Some(task));
            assert(old(k).tasks[task as int].parent != Some(task));
        }
    }
    let n = k.tasks[task].children.len();
    let mut i: usize = 0;
    while i < n
        invariant
            0 < task < len,
            n == ch.len(),
            i <= n,
            k.tasks.len() == len,
            forall|j: int| 0 <= j < ch.len() ==> #[trigger] ch[j] < len && ch[j] != IDLE_PID && ch[j] != task,
            k.tasks[task as int] == mid.tasks[task as int],
            k.tasks[task as int].children@ == ch,
            k.tasks[IDLE_PID as int] == (TaskControlBlock { children: k.tasks[IDLE_PID as int].children, ..mid.tasks[IDLE_PID as int] }),
            k.tasks[IDLE_PID as int].children@ == mid.tasks[IDLE_PID as int].children@ + ch.subrange(0, i as int),
            forall|p: int| 0 < p < len && p != task && ch.subrange(0, i as int).contains(p as usize)
                ==> #[trigger] k.tasks[p] == (TaskControlBlock { parent: Some(IDLE_PID), ..mid.tasks[p] }),
            forall|p: int| 0 < p < len && p != task && !ch.subrange(0, i as int).contains(p as usize)
                ==> #[trigger] k.tasks[p] == mid.tasks[p],
            k.task_manager == mid.task_manager,
            k.pid2tcb == mid.pid2tcb,
            k.processor == mid.processor,
            k.same_machine(&mid),
        decreases n - i,
    {
        let c = k.tasks[task].children[i];
        assert(c == ch[i as int]);
        k.tasks[c].parent = Some(IDLE_PID);
        k.tasks[IDLE_PID].children.push(c);
        proof {
            assert(ch.subrange(0, i + 1) =~= ch.subrange(0, i as int).push(c));
            assert(k.tasks[IDLE_PID as int].children@ =~= mid.tasks[IDLE_PID as int].children@ + ch.subrange(0, i + 1));
            assert forall|p: int| 0 < p < len && p != task && ch.subrange(0, i + 1).contains(p as usize)
                implies #[trigger] k.tasks[p] == (TaskControlBlock { parent: Some(IDLE_PID), ..mid.tasks[p] }) by {
                if p != c {
                    assert(ch.subrange(0, i as int).contains(p as usize)) by {
                        let jj = choose|jj: int| 0 <= jj < i + 1 && #[trigger] ch.subrange(0, i + 1)[jj] == p as usize;
                        assert(jj != i as int);
                        assert(ch.subrange(0, i as int)[jj] == p as usize);
                    }
                }
            }
            assert forall|p: int| 0 < p < len && p != task && !ch.subrange(0, i + 1).contains(p as usize)
                implies #[trigger] k.tasks[p] == mid.tasks[p] by {
                assert(p != c) by {
                    assert(ch.subrange(0, i + 1)[i as int] == c);
                }
                if ch.subrange(0, i as int).contains(p as usize) {
                    let jj = choose|jj: int| 0 <= jj < i && #[trigger] ch.subrange(0, i as int)[jj] == p as usize;
                    assert(ch.subrange(0, i + 1)[jj] == p as usize);
                }
            }
        }
        i = i + 1;
    }
    k.tasks[task].children.clear();
    remove_inactive_task(k, task);
    k.tasks[task].memory_set.recycle_data_pages();
    proof {
        assert(ch.subrange(0, n as int) =~= ch);
        lemma_exit_keeps_wf(*old(k), *k, task, ch);
    }
}

/// What `exit_current_and_run_next` leaves for a task `t` other than the
/// initial process satisfies the kernel invariant.
proof fn lemma_exit_keeps_wf(o: Kernel, f: Kernel, t: usize, ch: Seq<usize>)
    requires
        o.wf(),
        o.processor.current == Some(t),
        t != IDLE_PID,
        ch == o.tasks[t as int].children@,
        f.processor.current is None,
        f.task_manager@ == o.task_manager@,
        f.apps == o.apps,
        f.free_pids@ == o.free_pids@,
        f.pid2tcb@ == o.pid2tcb@.remove(t),
        f.tasks.len() == o.tasks.len(),
        f.tasks[t as int] == (TaskControlBlock {
            task_status: TaskStatus::Exited,
            children: f.tasks[t as int].children,
            memory_set: f.tasks[t as int].memory_set,
            exit_code: f.tasks[t as int].exit_code,
            ..o.tasks[t as int]
        }),
        f.tasks[t as int].children@ == Seq::<usize>::empty(),
        f.tasks[t as int].memory_set.bytes == o.tasks[t as int].memory_set.bytes,
        f.tasks[t as int].memory_set.mapped.len() == o.tasks[t as int].memory_set.mapped.len(),
        f.tasks[IDLE_PID as int] == (TaskControlBlock { children: f.tasks[IDLE_PID as int].children, ..o.tasks[IDLE_PID as int] }),
        f.tasks[IDLE_PID as int].children@ == o.tasks[IDLE_PID as int].children@ + ch,
        forall|p: int| 0 < p < o.tasks.len() && p != t && ch.contains(p as usize)
            ==> #[trigger] f.tasks[p] == (TaskControlBlock { parent: Some(IDLE_PID), ..o.tasks[p] }),
        forall|p: int| 0 < p < o.tasks.len() && p != t && !ch.contains(p as usize)
            ==> #[trigger] f.tasks[p] == o.tasks[p],
    ensures
        f.wf(),
{
    let n = o.tasks.len() as int;
    assert(o.tasks[t as int].wf_at(t as int, n));
    assert(o.tasks[IDLE_PID as int].wf_at(0, n));
    assert forall|j: int| 0 <= j < ch.len() implies #[trigger] ch[j] < n && ch[j] != IDLE_PID && ch[j] != t
        && o.tasks[ch[j] as int].parent == Some(t) by {
        assert(o.tasks[t as int].children[j] == ch[j]);
        assert(o.tasks[ch[j] as int].parent == Some(t));
        assert(o.tasks[t as int].parent != Some(t));
    }
    // every task keeps its shape
    assert forall|p: int| 0 <= p < n implies #[trigger] f.tasks[p].wf_at(p, n) by {
        assert(o.tasks[p].wf_at(p, n));
        if p == IDLE_PID as int {
            assert forall|i: int| 0 <= i < f.tasks[p].children.len() implies #[trigger] f.tasks[p].children[i] < n by {
                let oc = o.tasks[p].children@;
                if i < oc.len() {
                    assert(f.tasks[p].children[i] == oc[i]);
                } else {
                    assert(f.tasks[p].children[i] == ch[i - oc.len()]);
                }
            }
        }
    }
    assert forall|p: int| 0 <= p < n implies ((#[trigger] f.tasks[p]).parent matches Some(q) ==> q != p) by {
        assert(o.tasks[p].parent matches Some(q) ==> q != p);
    }
    assert forall|p: int, i: int| 0 <= p < n && 0 <= i < f.tasks[p].children.len() implies #[trigger] f.tasks[f.tasks[p].children[i] as int].parent == Some(p as usize) by {
        let c = f.tasks[p].children[i];
        if p == t as int {
        } else if p == IDLE_PID as int {
            let oc = o.tasks[p].children@;
            if i < oc.len() {
                assert(c == oc[i]);
                assert(c < n);
                assert(o.tasks[c as int].parent == Some(p as usize));
                assert(o.tasks[0].parent is None);
                assert(c != 0);
                if ch.contains(c) {
                    let j = choose|j: int| 0 <= j < ch.len() && ch[j] == c;
                    assert(o.tasks[ch[j] as int].parent == Some(t));
                }
                if c == t {
                    assert(f.tasks[t as int].parent == o.tasks[t as int].parent);
                } else {
                    assert(f.tasks[c as int] == o.tasks[c as int]);
                }
            } else {
                let j = i - oc.len();
                assert(c == ch[j]);
                assert(ch.contains(c));
                assert(0 < c < n && c != t);
                assert(f.tasks[c as int] == (TaskControlBlock { parent: Some(IDLE_PID), ..o.tasks[c as int] }));
            }
        } else {
            let oc = o.tasks[p].children@;
            assert(0 < p < n && p != t);
            if ch.contains(p as usize) {
                assert(f.tasks[p] == (TaskControlBlock { parent: Some(IDLE_PID), ..o.tasks[p] }));
            } else {
                assert(f.tasks[p] == o.tasks[p]);
            }
            assert(f.tasks[p].children == o.tasks[p].children);
            assert(c == oc[i]);
            assert(o.tasks[p].wf_at(p, n));
            assert(c < n);
            assert(o.tasks[c as int].parent == Some(p as usize));
            assert(o.tasks[0].parent is None);
            assert(c != 0);
            if ch.contains(c) {
                let j = choose|j: int| 0 <= j < ch.len() && ch[j] == c;
                assert(o.tasks[ch[j] as int].parent == Some(t));
            }
            if c == t {
                assert(f.tasks[t as int].parent == o.tasks[t as int].parent);
            } else {
                assert(f.tasks[c as int] == o.tasks[c as int]);
            }
        }
    }
    let oc = o.tasks[IDLE_PID as int].children@;
    assert forall|p: int, i: int, j: int| 0 <= p < n && 0 <= i < j < f.tasks[p].children.len() implies #[trigger] f.tasks[p].children[i]
        != #[trigger] f.tasks[p].children[j] by {
        if p == IDLE_PID as int {
            if j < oc.len() {
                assert(f.tasks[p].children[i] == oc[i] && f.tasks[p].children[j] == oc[j]);
                assert(o.tasks[p].children[i] != o.tasks[p].children[j]);
            } else if i >= oc.len() {
                assert(f.tasks[p].children[i] == ch[i - oc.len()] && f.tasks[p].children[j] == ch[j - oc.len()]);
                assert(o.tasks[t as int].children[i - oc.len()] != o.tasks[t as int].children[j - oc.len()]);
            } else {
                let a = oc[i];
                let b = ch[j - oc.len()];
                assert(f.tasks[p].children[i] == a && f.tasks[p].children[j] == b);
                assert(o.tasks[p].children[i] == a);
                assert(o.tasks[a as int].parent == Some(IDLE_PID));
                assert(o.tasks[b as int].parent == Some(t));
            }
        } else if p == t as int {
        } else if ch.contains(p as usize) {
            assert(f.tasks[p].children == o.tasks[p].children);
            assert(o.tasks[p].children[i] != o.tasks[p].children[j]);
        } else {
            assert(f.tasks[p].children == o.tasks[p].children);
            assert(o.tasks[p].children[i] != o.tasks[p].children[j]);
        }
    }
    assert forall|i: int| 0 <= i < f.free_pids.len() implies #[trigger] f.free_pids[i] < n && f.free_pids[i]
        != IDLE_PID && f.tasks[f.free_pids[i] as int].task_status == TaskStatus::Exited by {
        let z = o.free_pids[i];
        assert(f.free_pids[i] == z);
        assert(o.tasks[z as int].task_status == TaskStatus::Exited);
        if ch.contains(z) {
            let j = choose|j: int| 0 <= j < ch.len() && ch[j] == z;
            assert(o.tasks[t as int].children[j] != o.free_pids[i]);
        }
        if z != t {
            assert(f.tasks[z as int].task_status == o.tasks[z as int].task_status);
        }
    }
    assert forall|i: int, j: int| 0 <= i < j < f.free_pids.len() implies #[trigger] f.free_pids[i] != #[trigger] f.free_pids[j] by {
        assert(f.free_pids[i] == o.free_pids[i] && f.free_pids[j] == o.free_pids[j]);
    }
    assert forall|p: int, i: int, j: int| 0 <= p < n && 0 <= i < f.tasks[p].children.len() && 0 <= j < f.free_pids.len()
        implies #[trigger] f.tasks[p].children[i] != #[trigger] f.free_pids[j] by {
        assert(f.free_pids[j] == o.free_pids[j]);
        if p == IDLE_PID as int {
            if i < oc.len() {
                assert(f.tasks[p].children[i] == o.tasks[p].children[i]);
                assert(o.tasks[p].children[i] != o.free_pids[j]);
            } else {
                assert(f.tasks[p].children[i] == o.tasks[t as int].children[i - oc.len()]);
                assert(o.tasks[t as int].children[i - oc.len()] != o.free_pids[j]);
            }
        } else if p == t as int {
        } else {
            assert(f.tasks[p].children == o.tasks[p].children);
            assert(o.tasks[p].children[i] != o.free_pids[j]);
        }
    }
    assert(f.wf_tasks());
    // statuses: only t changed, from Running to Exited
    assert forall|p: int| 0 <= p < n && p != t as int implies #[trigger] f.tasks[p].task_status == o.tasks[p].task_status by {}
    assert forall|i: int| 0 <= i < f.task_manager@.len() implies f.tasks[#[trigger] f.task_manager@[i] as int].task_status == TaskStatus::Ready by {
        let q = f.task_manager@[i];
        assert(o.tasks[q as int].task_status == TaskStatus::Ready);
        assert(q != t);
        assert(f.tasks[q as int].task_status == o.tasks[q as int].task_status);
    }
    assert forall|p: int| 0 <= p < n && (#[trigger] f.tasks[p]).task_status == TaskStatus::Ready implies f.task_manager@.contains(p as usize) by {
        assert(f.tasks[p].task_status == o.tasks[p].task_status);
    }
    assert(f.wf_queue());
    assert forall|p: int| 0 <= p < n && (#[trigger] f.tasks[p]).task_status == TaskStatus::Running implies f.processor.current == Some(p as usize) by {
        assert(f.tasks[p].task_status == o.tasks[p].task_status);
    }
    assert(f.wf_current());
    assert forall|p: int| 0 <= p < n && (#[trigger] f.tasks[p]).task_status != TaskStatus::Exited implies f.pid2tcb@.contains_key(p as usize) by {
        assert(f.tasks[p].task_status == o.tasks[p].task_status);
    }
    assert(f.wf_pid2tcb());
}

/// The heap end that moving `brk` by `size` asks for, when it stays within
/// `[heap_bottom, limit]`.
pub open spec fn new_brk_spec(brk: usize, size: i32, heap_bottom: usize, limit: usize) -> Option<usize> {
    let nb = brk + size;
    if nb < heap_bottom || nb > limit {
        None
    } else {
        Some(nb as usize)
    }
}

/// `f` is `o` with the current task's heap end moved by `size` to `nb`
/// and the pages between the old and the new end mapped or unmapped.
pub open spec fn brk_moved(o: Kernel, f: Kernel, size: i32, nb: usize) -> bool {
    let c = o.processor.current.unwrap() as int;
    let t = o.tasks[c];
    let old_top = page_ceil(t.program_brk as int);
    let new_top = page_ceil(nb as int);
    &&& f.tasks@ == o.tasks@.update(
        c,
        (TaskControlBlock {
            program_brk: nb,
            memory_set: UserMemory { mapped: f.tasks[c].memory_set.mapped, ..t.memory_set },
            ..t
        }),
    )
    &&& f.tasks[c].memory_set.mapped@ == (if size < 0 {
        with_pages(t.memory_set.mapped@, new_top, old_top, false)
    } else {
        with_pages(t.memory_set.mapped@, old_top, new_top, true)
    })
    &&& f.task_manager == o.task_manager
    &&& f.pid2tcb == o.pid2tcb
    &&& f.processor == o.processor
    &&& f.same_machine(&o)
}

/// Moves the current task's heap end by `size` bytes, mapping or unmapping
/// the pages in between. Fails (`None`, nothing changed) when the new end
/// would fall below the heap's start or beyond the address space; otherwise
/// returns the old end.
pub fn change_program_brk(k: &mut Kernel, size: i32) -> (r: Option<usize>)
    requires
        old(k).wf(),
        old(k).processor.current is Some,
    ensures
        final(k).wf(),
        ({
            let t = old(k).tasks[old(k).processor.current.unwrap() as int];
            match new_brk_spec(t.program_brk, size, t.heap_bottom, t.memory_set.bytes.len() as usize) {
                None => r is None && *final(k) == *old(k),
                Some(nb) => r == Some(t.program_brk) && brk_moved(*old(k), *final(k), size, nb),
            }
        }),
{
    let cur = k.processor.current().unwrap();
    proof {
        assert(k.tasks[cur as int].wf_at(cur as int, k.tasks.len() as int));
    }
    let old_brk = k.tasks[cur].program_brk;
    let heap_bottom = k.tasks[cur].heap_bottom;
    let limit = k.tasks[cur].memory_set.bytes.len();
    let new_brk = old_brk as i128 + size as i128;
    if new_brk < heap_bottom as i128 || new_brk > limit as i128 {
        return None;
    }
    let new_brk = new_brk as usize;
    let old_top = page_ceil_of(old_brk);
    let new_top = page_ceil_of(new_brk);
    proof {
        let np = k.tasks[cur as int].memory_set.mapped.len() as int;
        assert(limit == np * 4096);
        assert(page_ceil(old_brk as int) <= np && page_ceil(new_brk as int) <= np) by (nonlinear_arith)
            requires old_brk <= np * 4096, new_brk <= np * 4096, np >= 0;
        if size < 0 {
            assert(page_ceil(new_brk as int) <= page_ceil(old_brk as int)) by (nonlinear_arith)
                requires new_brk <= old_brk;
        } else {
            assert(page_ceil(old_brk as int) <= page_ceil(new_brk as int)) by (nonlinear_arith)
                requires old_brk <= new_brk;
        }
    }
    if size < 0 {
        k.tasks[cur].memory_set.set_pages(new_top, old_top, false);
    } else {
        k.tasks[cur].memory_set.set_pages(old_top, new_top, true);
    }
    k.tasks[cur].program_brk = new_brk;
    proof {
        assert forall|p: int| 0 <= p < k.tasks.len() implies #[trigger] same_family(old(k).tasks[p], k.tasks[p])
            && k.tasks[p].task_status == old(k).tasks[p].task_status by {}
        lemma_wf_same_statuses(*old(k), *k);
    }
    proof {
        let t = old(k).tasks[cur as int];
        assert(k.tasks@ =~= old(k).tasks@.update(
            cur as int,
            (TaskControlBlock {
                program_brk: new_brk,
                memory_set: UserMemory { mapped: k.tasks[cur as int].memory_set.mapped, ..t.memory_set },
                ..t
            }),
        ));
        assert(brk_moved(*old(k), *k, size, new_brk));
    }
    Some(old_brk)
}

/// Moving the heap end by `size` and then by `-size` brings it back:
/// whenever the first move is allowed, so is the second, and it restores the
/// old end.
pub proof fn lemma_sbrk_undo(brk: usize, size: i32, heap_bottom: usize, limit: usize)
    requires
        heap_bottom <= brk <= limit,
        size != i32::MIN,
        new_brk_spec(brk, size, heap_bottom, limit) is Some,
    ensures
        new_brk_spec(new_brk_spec(brk, size, heap_bottom, limit).unwrap(), (-size) as i32, heap_bottom, limit)
            == Some(brk),
{
}

/// Counting a system call adds one (wrapping at `u32::MAX`) to the current
/// task's count for that call and to nothing else; ids from
/// `MAX_SYSCALL_NUM` on, or no current task, change nothing.
pub proof fn lemma_count_adds_one(o: Kernel, f: Kernel, id: usize)
    requires
        o.wf(),
        record_syscall_times_spec(o, f, id),
    ensures
        (id >= MAX_SYSCALL_NUM || o.processor.current is None) ==> f == o,
        (id < MAX_SYSCALL_NUM && o.processor.current is Some) ==> {
            let c = o.processor.current.unwrap() as int;
            let before = o.tasks[c].syscall_times@;
            let after = f.tasks[c].syscall_times@;
            &&& after.len() == before.len()
            &&& after[id as int] as int == (before[id as int] + 1) % 0x1_0000_0000
            &&& forall|j: int| 0 <= j < before.len() && j != id ==> after[j] == before[j]
        },
{
    if id < MAX_SYSCALL_NUM && o.processor.current is Some {
        let c = o.processor.current.unwrap() as int;
        assert(o.tasks[c].wf_at(c, o.tasks.len() as int));
        let v = o.tasks[c].syscall_times@[id as int];
        assert(f.tasks[c].syscall_times@[id as int] == (if v == u32::MAX { 0u32 } else { (v + 1) as u32 }));
    }
}

/// The run time that a task reports is the time elapsed since it first
/// ran: `now - first` once it has run (0 if the clock reads earlier), and 0
/// for a task that never ran (`first == 0`).
pub proof fn lemma_run_time_is_elapsed(first: usize, now: usize)
    ensures
        first == 0 ==> run_time_ms(first, now) == 0,
        first != 0 && first <= now ==> run_time_ms(first, now) + first == now,
        first != 0 && now < first ==> run_time_ms(first, now) == 0,
{
}

/// A task that yields while the ready queue is empty is the next one to run.
pub proof fn lemma_yield_alone_runs_again(o: Kernel, f: Kernel, t: usize)
    requires
        o.wf(),
        o.processor.current is Some,
        o.task_manager@.len() == 0,
        suspend_spec(o, f, t),
    ensures
        f.task_manager@ == seq![t],
        f.tasks[t as int].task_status == TaskStatus::Ready,
{
    assert(f.task_manager@ =~= seq![t]);
}

} // verus!
