//! The user library's view of the kernel: the task-info record that
//! `task_info` fills in, and a stackful coroutine runtime.
use vstd::prelude::*;
use crate::mm::page_table::u64_from_le;
use crate::syscall::process::{read_u64_at, run_time_ms_of, task_info_reads_back};
use crate::task::task::{status_code_spec, TaskControlBlock};

pub mod coroutine;

verus! {

/// Number of system-call entries in a `TaskInfo`.
pub const MAX_SYSCALL_NUM: usize = 500;

/// A task's state as the kernel reports it (one byte: 0, 1, 2, 3).
#[derive(Clone, Copy, PartialEq, Eq, Structural, Debug)]
pub enum TaskStatus {
    UnInit,
    Ready,
    Running,
    Exited,
}

/// The status that byte `b` stands for, if any.
pub open spec fn status_of_code(b: u8) -> Option<TaskStatus> {
    if b == 0 {
        Some(TaskStatus::UnInit)
    } else if b == 1 {
        Some(TaskStatus::Ready)
    } else if b == 2 {
        Some(TaskStatus::Running)
    } else if b == 3 {
        Some(TaskStatus::Exited)
    } else {
        None
    }
}

/// Size in bytes of the record as the kernel writes it.
pub const TASK_INFO_BYTES: usize = 8024;

/// The little-endian value of the eight bytes of `b` at `a`.
pub open spec fn le_u64_at(b: Seq<u8>, a: int) -> u64 {
    u64_from_le(b.subrange(a, a + 8))
}

/// The little-endian value of the eight bytes of `b` at `a`.
fn read_le_u64(b: &[u8], a: usize) -> (r: u64)
    requires
        a + 8 <= b.len(),
    ensures
        r == le_u64_at(b@, a as int),
{
    let r = (b[a] as u64) | ((b[a + 1] as u64) << 8u64) | ((b[a + 2] as u64) << 16u64) | ((b[a + 3] as u64)
        << 24u64) | ((b[a + 4] as u64) << 32u64) | ((b[a + 5] as u64) << 40u64) | ((b[a + 6] as u64)
        << 48u64) | ((b[a + 7] as u64) << 56u64);
    let ghost s = b@.subrange(a as int, a + 8);
    assert(s[0] == b[a as int] && s[1] == b[a + 1] && s[2] == b[a + 2] && s[3] == b[a + 3]);
    assert(s[4] == b[a + 4] && s[5] == b[a + 5] && s[6] == b[a + 6] && s[7] == b[a + 7]);
    r
}

/// How often the task made system call `id`.
#[derive(Clone, Copy, PartialEq, Eq, Structural, Debug)]
pub struct SyscallInfo {
    pub id: usize,
    pub times: usize,
}

/// What `task_info` reports of a task.
pub struct TaskInfo {
    pub id: usize,
    pub status: TaskStatus,
    pub call: Vec<SyscallInfo>,
    pub time: usize,
}

impl TaskInfo {
    /// An empty record: id 0, UnInit, entry `i` for system call `i` with no
    /// calls, time 0.
    pub fn new() -> (r: Self)
        ensures
            r.id == 0,
            r.status == TaskStatus::UnInit,
            r.call@.len() == MAX_SYSCALL_NUM,
            forall|i: int| 0 <= i < MAX_SYSCALL_NUM ==> #[trigger] r.call@[i] == (SyscallInfo { id: i as usize, times: 0 }),
            r.time == 0,
    {
        let mut call: Vec<SyscallInfo> = Vec::new();
        let mut i: usize = 0;
        while i < MAX_SYSCALL_NUM
            invariant
                i <= MAX_SYSCALL_NUM,
                call@.len() == i,
                forall|j: int| 0 <= j < i ==> #[trigger] call@[j] == (SyscallInfo { id: j as usize, times: 0 }),
            decreases MAX_SYSCALL_NUM - i,
        {
            call.push(SyscallInfo { id: i, times: 0 });
            i = i + 1;
        }
        TaskInfo { id: 0, status: TaskStatus::UnInit, call, time: 0 }
    }

    /// The record laid out in `b` as the kernel writes it (riscv64 layout:
    /// id at 0, status byte at 8, entry `e` at 16 + 16e, time at 8016);
    /// `None` when `b` is too short or the status byte is unknown.
    pub fn from_bytes(b: &[u8]) -> (r: Option<Self>)
        ensures
            r is None <==> (b.len() < TASK_INFO_BYTES || status_of_code(b[8]) is None),
            r matches Some(info) ==> {
                &&& info.id == le_u64_at(b@, 0) as usize
                &&& Some(info.status) == status_of_code(b[8])
                &&& info.call@.len() == MAX_SYSCALL_NUM
                &&& forall|e: int|
                    0 <= e < MAX_SYSCALL_NUM ==> #[trigger] info.call@[e] == (SyscallInfo {
                        id: le_u64_at(b@, 16 + 16 * e) as usize,
                        times: le_u64_at(b@, 16 + 16 * e + 8) as usize,
                    })
                &&& info.time == le_u64_at(b@, 8016) as usize
            },
    {
        if b.len() < TASK_INFO_BYTES {
            return None;
        }
        let status = match b[8] {
            0 => TaskStatus::UnInit,
            1 => TaskStatus::Ready,
            2 => TaskStatus::Running,
            3 => TaskStatus::Exited,
            _ => return None,
        };
        let mut call: Vec<SyscallInfo> = Vec::new();
        let mut e: usize = 0;
        while e < MAX_SYSCALL_NUM
            invariant
                b.len() >= TASK_INFO_BYTES,
                e <= MAX_SYSCALL_NUM,
                call@.len() == e,
                forall|j: int|
                    0 <= j < e ==> #[trigger] call@[j] == (SyscallInfo {
                        id: le_u64_at(b@, 16 + 16 * j) as usize,
                        times: le_u64_at(b@, 16 + 16 * j + 8) as usize,
                    }),
            decreases MAX_SYSCALL_NUM - e,
        {
            let id = read_le_u64(b, 16 + 16 * e) as usize;
            let times = read_le_u64(b, 16 + 16 * e + 8) as usize;
            call.push(SyscallInfo { id, times });
            e = e + 1;
        }
        let id = read_le_u64(b, 0) as usize;
        let time = read_le_u64(b, 8016) as usize;
        Some(TaskInfo { id, status, call, time })
    }
}

/// What the kernel writes for a task is what the user library decodes: if
/// `fb` holds at `ti` the task info of task `t` (pid `id`, time `now`), the
/// record's bytes decode to that pid, status byte, per-call entries and run
/// time.
pub proof fn lemma_task_info_decodes(fb: Seq<u8>, ti: int, id: usize, t: TaskControlBlock, now: usize)
    requires
        task_info_reads_back(fb, ti, id, t, now),
        t.syscall_times.len() == MAX_SYSCALL_NUM,
    ensures
        ({
            let b = fb.subrange(ti, ti + TASK_INFO_BYTES);
            &&& b.len() == TASK_INFO_BYTES
            &&& le_u64_at(b, 0) as usize == id
            &&& b[8] == status_code_spec(t.task_status)
            &&& (forall|e: int|
                0 <= e < MAX_SYSCALL_NUM ==> #[trigger] le_u64_at(b, 16 + 16 * e) as usize == e
                    && le_u64_at(b, 16 + 16 * e + 8) as usize == t.syscall_times[e] as usize)
            &&& le_u64_at(b, 8016) as usize == run_time_ms_of(t, now)
        }),
{
    let b = fb.subrange(ti, ti + TASK_INFO_BYTES);
    assert forall|a: int| 0 <= a && a + 8 <= TASK_INFO_BYTES implies #[trigger] le_u64_at(b, a) == read_u64_at(fb, ti + a) by {
        assert(b.subrange(a, a + 8) =~= fb.subrange(ti + a, ti + a + 8));
    }
    assert(le_u64_at(b, 0) == read_u64_at(fb, ti));
    assert(le_u64_at(b, 8016) == read_u64_at(fb, ti + 8016));
    assert forall|e: int| 0 <= e < MAX_SYSCALL_NUM implies #[trigger] le_u64_at(b, 16 + 16 * e) as usize == e
        && le_u64_at(b, 16 + 16 * e + 8) as usize == t.syscall_times[e] as usize by {
        assert(le_u64_at(b, 16 + 16 * e) == read_u64_at(fb, ti + 16 + 16 * e));
        assert(le_u64_at(b, 16 + 16 * e + 8) == read_u64_at(fb, ti + 16 + 16 * e + 8));
        assert(read_u64_at(fb, ti + 16 + 16 * e) == e as u64);
    }
}

/// The user library reads back the status that the kernel reports: the
/// status byte the kernel writes for a task UnInit, Ready, Running or
/// Exited decodes to the user status of the same name, so `from_bytes`
/// of a record the kernel wrote has that status.
pub proof fn lemma_status_decodes(s: crate::task::TaskStatus)
    requires
        s != crate::task::TaskStatus::Blocked,
    ensures
        s == crate::task::TaskStatus::UnInit ==> status_of_code(status_code_spec(s)) == Some(TaskStatus::UnInit),
        s == crate::task::TaskStatus::Ready ==> status_of_code(status_code_spec(s)) == Some(TaskStatus::Ready),
        s == crate::task::TaskStatus::Running ==> status_of_code(status_code_spec(s)) == Some(TaskStatus::Running),
        s == crate::task::TaskStatus::Exited ==> status_of_code(status_code_spec(s)) == Some(TaskStatus::Exited),
        // and the codes are the variants' positions: UnInit 0, Ready 1, Running 2, Exited 3
        status_code_spec(s) <= 3,
        status_of_code(0) == Some(TaskStatus::UnInit),
        status_of_code(1) == Some(TaskStatus::Ready),
        status_of_code(2) == Some(TaskStatus::Running),
        status_of_code(3) == Some(TaskStatus::Exited),
        forall|x: u8| x > 3 ==> status_of_code(x) is None,
{
}

} // verus!
