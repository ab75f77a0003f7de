//! The task control block.
use vstd::prelude::*;
use crate::config::MAX_SYSCALL_NUM;
use crate::mm::UserMemory;
use crate::task::context::TaskContext;
use crate::task::signal::SignalFlags;
use crate::trap::context::TrapContext;

verus! {

/// Scheduling state of a task. The first four share their numbering with
/// the user library's `TaskStatus`, which is how `sys_task_info` reports them.
#[derive(Clone, Copy, PartialEq, Eq, Structural, Debug)]
pub enum TaskStatus {
    UnInit,
    Ready,
    Running,
    Exited,
    Blocked,
}

/// The byte with which a status is reported to user space.
pub open spec fn status_code_spec(s: TaskStatus) -> u8 {
    match s {
        TaskStatus::UnInit => 0,
        TaskStatus::Ready => 1,
        TaskStatus::Running => 2,
        TaskStatus::Exited => 3,
        TaskStatus::Blocked => 4,
    }
}

/// The byte with which a status is reported to user space.
pub fn status_code(s: TaskStatus) -> (r: u8)
    ensures
        r == status_code_spec(s),
{
    match s {
        TaskStatus::UnInit => 0,
        TaskStatus::Ready => 1,
        TaskStatus::Running => 2,
        TaskStatus::Exited => 3,
        TaskStatus::Blocked => 4,
    }
}

/// The `satp` value that selects the Sv39 page table rooted at `root_ppn`.
pub open spec fn satp_token(root_ppn: usize) -> usize {
    ((8u64 << 60u64) | (root_ppn as u64)) as usize
}

/// The `satp` value that selects the Sv39 page table rooted at `root_ppn`.
pub fn token_of(root_ppn: usize) -> (r: usize)
    ensures
        r == satp_token(root_ppn),
{
    ((8u64 << 60u64) | (root_ppn as u64)) as usize
}

/// A task (a single-threaded process): its scheduling state, contexts,
/// address space, family and accounting.
pub struct TaskControlBlock {
    pub pid: usize,
    pub kernel_stack_top: usize,
    pub task_status: TaskStatus,
    pub task_cx: TaskContext,
    pub trap_cx: TrapContext,
    pub memory_set: UserMemory,
    /// Lowest address of the heap.
    pub heap_bottom: usize,
    /// Current end of the heap.
    pub program_brk: usize,
    pub parent: Option<usize>,
    pub children: Vec<usize>,
    pub exit_code: i32,
    /// `syscall_times[id]`: the number of calls of system call `id`.
    pub syscall_times: Vec<u32>,
    /// Time (ms) at which the task first ran, 0 before that.
    pub first_schedule_time: usize,
    pub signals: SignalFlags,
}

impl TaskControlBlock {
    /// Whether the task has exited and waits to be reaped by its parent.
    pub open spec fn is_zombie_spec(&self) -> bool {
        self.task_status == TaskStatus::Exited
    }

    /// Whether the task has exited and waits to be reaped by its parent.
    pub fn is_zombie(&self) -> (r: bool)
        ensures
            r == self.is_zombie_spec(),
    {
        self.task_status == TaskStatus::Exited
    }

    /// The pid of the task.
    pub fn getpid(&self) -> (r: usize)
        ensures
            r == self.pid,
    {
        self.pid
    }

    /// The token of the task's address space.
    pub fn get_user_token(&self) -> (r: usize)
        ensures
            r == satp_token(self.memory_set.root_ppn),
    {
        token_of(self.memory_set.root_ppn)
    }

    /// The well-formedness of the task stored at index `p` of a table of `n`.
    pub open spec fn wf_at(&self, p: int, n: int) -> bool {
        &&& self.pid == p
        &&& self.memory_set.wf()
        &&& self.heap_bottom <= self.program_brk <= self.memory_set.bytes.len()
        &&& self.syscall_times.len() == MAX_SYSCALL_NUM
        &&& forall|i: int| 0 <= i < self.children.len() ==> #[trigger] self.children[i] < n
        &&& (self.parent matches Some(q) ==> q < n)
    }
}

} // verus!
