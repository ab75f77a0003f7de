//! Process and task system calls.
use vstd::prelude::*;
use crate::config::{MAX_SYSCALL_NUM, PAGE_SIZE};
use crate::mm::page_table::{lemma_cstr_unique, page_ceil, with_pages};
use crate::task::{lemma_wf_same_statuses, run_time_ms, same_family, get_task_snapshot, Kernel, TaskControlBlock, TaskSnapshot};
use crate::task::processor::current_task;
use crate::task::{
    brk_moved, change_program_brk, exit_current_and_run_next, exit_current_spec, kernel_stack_top, kstack_top_spec, new_brk_spec,
    suspend_current_and_run_next, suspend_spec, SignalFlags, TaskContext, TaskStatus,
};
use crate::task::manager::add_task;
use crate::task::task::{satp_token, token_of};
use crate::config::{IDLE_PID, MAX_TASKS};
use crate::fs::{app_named, open_file};
use crate::mm::page_table::{i32_le, is_cstr_at, translated_refmut_write_i32, translated_str};
use crate::trap::context::sstatus_user_spp;
use crate::trap::context::TrapContext;
use crate::task::task::{status_code, status_code_spec};
use crate::mm::page_table::{
    lemma_u64_le_roundtrip, u64_from_le, chunks_cover, translated_byte_buffer_checked, u64_le, u64_to_le_bytes, write_spec, UserMemory,
};

verus! {

/// Time of day: seconds and microseconds.
pub struct TimeVal {
    pub sec: usize,
    pub usec: usize,
}

/// One system call's count in a `TaskInfo`.
#[derive(Clone, Copy)]
pub struct SyscallInfo {
    pub id: usize,
    pub times: usize,
}

/// What `sys_task_info` writes to user space (layout of the riscv64 target,
/// `repr(C)`): `id` at offset 0, the status byte at 8, `call` at 16 (16
/// bytes per entry), `time` at 8016; 8024 bytes in all.
pub struct TaskInfo {
    pub id: usize,
    pub status: u8,
    pub call: Vec<SyscallInfo>,
    pub time: usize,
}

pub const USIZE_SIZE: usize = 8;
pub const SYSCALL_INFO_SIZE: usize = 16;
pub const OFF_ID: usize = 0;
pub const OFF_STATUS: usize = 8;
pub const OFF_CALL: usize = 16;
pub const OFF_TIME: usize = 8016;
pub const TASK_INFO_SIZE: usize = 8024;
/// Entries of the `call` array copied at a time.
pub const BATCH: usize = 32;
/// Number of batches that the `call` array takes.
pub const NUM_BATCHES: usize = 16;

/// `bytes` with the byte range of every piece `pieces[0..k]` overwritten, in order.
pub open spec fn apply_pieces(bytes: Seq<u8>, pieces: Seq<(int, Seq<u8>)>, k: int) -> Seq<u8>
    decreases k,
{
    if k <= 0 || k > pieces.len() {
        bytes
    } else {
        write_spec(apply_pieces(bytes, pieces, k - 1), pieces[k - 1].0, pieces[k - 1].1)
    }
}

/// Bytes of the `call` entries `lo .. lo + n`: each entry is its id then its
/// count, both as eight little-endian bytes.
pub open spec fn call_bytes(times: Seq<u32>, lo: int, n: int) -> Seq<u8> {
    Seq::new(
        (n * 16) as nat,
        |k: int|
            {
                let e = lo + k / 16;
                let o = k % 16;
                if o < 8 {
                    u64_le(e as u64)[o]
                } else {
                    u64_le(times[e] as u64)[o - 8]
                }
            },
    )
}

/// First entry of batch `b`.
pub open spec fn batch_lo(b: int) -> int {
    b * 32
}

/// Number of entries of batch `b`.
pub open spec fn batch_len(b: int) -> int {
    if MAX_SYSCALL_NUM - b * 32 < 32 {
        MAX_SYSCALL_NUM - b * 32
    } else {
        32
    }
}

/// The pieces that `sys_task_info` writes at `ti`, in order: the id, the
/// status byte, the 16 batches of `call` entries, the run time.
pub open spec fn task_info_pieces(ti: int, id: usize, status: u8, times: Seq<u32>, time_ms: usize) -> Seq<
    (int, Seq<u8>),
> {
    Seq::new(
        (NUM_BATCHES + 3) as nat,
        |j: int|
            if j == 0 {
                (ti + OFF_ID, u64_le(id as u64))
            } else if j == 1 {
                (ti + OFF_STATUS, seq![status])
            } else if j < NUM_BATCHES + 2 {
                (ti + OFF_CALL + batch_lo(j - 2) * 16, call_bytes(times, batch_lo(j - 2), batch_len(j - 2)))
            } else {
                (ti + OFF_TIME, u64_le(time_ms as u64))
            },
    )
}

/// Every chunk lies inside the range it covers.
pub proof fn lemma_chunks_bounded(chunks: Seq<(usize, usize)>, start: int, len: int, i: int)
    requires
        chunks_cover(chunks, start, len),
        0 <= i < chunks.len(),
    ensures
        start <= chunks[i].0,
        chunks[i].0 + chunks[i].1 <= start + len,
    decreases chunks.len() - i,
{
    if i + 1 < chunks.len() {
        lemma_chunks_bounded(chunks, start, len, i + 1);
        assert(chunks[i].0 + chunks[i].1 == chunks[i + 1].0);
        assert(chunks[i + 1].1 > 0);
    }
    lemma_chunks_low(chunks, start, len, i);
}

proof fn lemma_chunks_low(chunks: Seq<(usize, usize)>, start: int, len: int, i: int)
    requires
        chunks_cover(chunks, start, len),
        0 <= i < chunks.len(),
    ensures
        start <= chunks[i].0,
    decreases i,
{
    if i > 0 {
        lemma_chunks_low(chunks, start, len, i - 1);
        assert(chunks[i - 1].0 + chunks[i - 1].1 == chunks[i].0);
    }
}

/// Copies `src` to user address `dst` through the page translation: fails
/// (writing nothing) when the range is empty or not entirely mapped.
pub fn copy_to_user(mem: &mut UserMemory, dst: usize, src: &[u8]) -> (r: bool)
    requires
        old(mem).wf(),
    ensures
        r == (src.len() > 0 && old(mem).range_mapped(dst as int, src.len() as int)),
        r ==> final(mem).bytes@ == write_spec(old(mem).bytes@, dst as int, src@),
        !r ==> *final(mem) == *old(mem),
        final(mem).mapped == old(mem).mapped,
        final(mem).root_ppn == old(mem).root_ppn,
        final(mem).wf(),
{
    let buffers = match translated_byte_buffer_checked(mem, dst, src.len()) {
        Some(b) => b,
        None => return false,
    };
    if buffers.len() == 0 {
        return false;
    }
    let ghost chunks = buffers@;
    let mut offset: usize = 0;
    let mut bi: usize = 0;
    assert(src@.subrange(0, 0) =~= Seq::<u8>::empty());
    assert(mem.bytes@ =~= write_spec(old(mem).bytes@, dst as int, src@.subrange(0, 0)));
    while bi < buffers.len()
        invariant
            chunks == buffers@,
            chunks_cover(chunks, dst as int, src.len() as int),
            old(mem).range_mapped(dst as int, src.len() as int),
            old(mem).wf(),
            mem.wf(),
            mem.mapped == old(mem).mapped,
            mem.root_ppn == old(mem).root_ppn,
            bi <= buffers.len(),
            offset <= src.len(),
            bi < buffers.len() ==> buffers@[bi as int].0 == dst + offset,
            bi == buffers.len() ==> offset == src.len(),
            mem.bytes@ == write_spec(old(mem).bytes@, dst as int, src@.subrange(0, offset as int)),
        ensures
            offset == src.len(),
            mem.wf(),
            mem.mapped == old(mem).mapped,
            mem.root_ppn == old(mem).root_ppn,
            mem.bytes@ == write_spec(old(mem).bytes@, dst as int, src@.subrange(0, offset as int)),
        decreases buffers.len() - bi,
    {
        let (addr, blen) = buffers[bi];
        proof {
            lemma_chunks_bounded(chunks, dst as int, src.len() as int, bi as int);
        }
        assert(chunks[bi as int].1 > 0);
        let remaining = src.len() - offset;
        let len = if blen < remaining { blen } else { remaining };
        if len == 0 {
            break;
        }
        let mut j: usize = 0;
        while j < len
            invariant
                old(mem).range_mapped(dst as int, src.len() as int),
                old(mem).wf(),
                mem.wf(),
                mem.mapped == old(mem).mapped,
                mem.root_ppn == old(mem).root_ppn,
                addr == dst + offset,
                len == blen,
                offset + blen <= src.len(),
                j <= len,
                mem.bytes@ == write_spec(old(mem).bytes@, dst as int, src@.subrange(0, offset + j)),
            decreases len - j,
        {
            assert(old(mem).is_mapped(addr + j));
            mem.write_byte(addr + j, src[offset + j]);
            j = j + 1;
            assert(mem.bytes@ =~= write_spec(old(mem).bytes@, dst as int, src@.subrange(0, offset + j)));
        }
        offset = offset + len;
        bi = bi + 1;
        proof {
            if bi < buffers.len() {
                assert(chunks[bi - 1].0 + chunks[bi - 1].1 == chunks[bi as int].0);
            } else {
                assert(chunks.last() == chunks[bi - 1]);
            }
        }
    }
    assert(src@.subrange(0, src.len() as int) =~= src@);
    offset == src.len()
}

/// Piece `p` can be copied: it is not empty and its range is mapped.
pub open spec fn piece_ok(mem: UserMemory, p: (int, Seq<u8>)) -> bool {
    p.1.len() > 0 && mem.range_mapped(p.0, p.1.len() as int)
}

/// The first `k` pieces can be copied.
pub open spec fn pieces_ok(mem: UserMemory, pieces: Seq<(int, Seq<u8>)>, k: int) -> bool {
    forall|j: int| 0 <= j < k ==> #[trigger] piece_ok(mem, pieces[j])
}

/// The copies of `pieces` stopped at piece `j`: the earlier ones were
/// written, piece `j` could not be.
pub open spec fn stopped_at(
    before: UserMemory,
    after: Seq<u8>,
    pieces: Seq<(int, Seq<u8>)>,
    j: int,
) -> bool {
    &&& 0 <= j < pieces.len()
    &&& pieces_ok(before, pieces, j)
    &&& !piece_ok(before, pieces[j])
    &&& after == apply_pieces(before.bytes@, pieces, j)
}

proof fn lemma_call_bytes_step(times: Seq<u32>, lo: int, j: int)
    requires
        0 <= lo,
        0 <= j,
    ensures
        call_bytes(times, lo, j + 1) == call_bytes(times, lo, j) + u64_le((lo + j) as u64) + u64_le(
            times[lo + j] as u64,
        ),
{
    let a = call_bytes(times, lo, j + 1);
    let b = call_bytes(times, lo, j) + u64_le((lo + j) as u64) + u64_le(times[lo + j] as u64);
    assert(a.len() == b.len()) by (nonlinear_arith)
        requires a.len() == (j + 1) * 16, b.len() == j * 16 + 16;
    assert forall|k: int| 0 <= k < a.len() implies a[k] == b[k] by {
        if k < j * 16 {
            assert(k / 16 < j) by (nonlinear_arith) requires 0 <= k < j * 16;
        } else {
            assert(k / 16 == j && k % 16 == k - j * 16) by (nonlinear_arith)
                requires j * 16 <= k < (j + 1) * 16;
        }
    }
    assert(a =~= b);
}

/// The bytes of the `call` entries `lo .. lo + n` of the counts `times`.
fn call_batch_bytes(times: &Vec<u32>, lo: usize, n: usize) -> (r: Vec<u8>)
    requires
        lo + n <= times.len(),
    ensures
        r@ == call_bytes(times@, lo as int, n as int),
{
    let mut r: Vec<u8> = Vec::new();
    let mut j: usize = 0;
    assert(r@ =~= call_bytes(times@, lo as int, 0));
    while j < n
        invariant
            lo + n <= times.len(),
            j <= n,
            r@ == call_bytes(times@, lo as int, j as int),
        decreases n - j,
    {
        let id_bytes = u64_to_le_bytes((lo + j) as u64);
        let times_bytes = u64_to_le_bytes(times[lo + j] as u64);
        proof { lemma_call_bytes_step(times@, lo as int, j as int); }
        let ghost before = r@;
        let mut k: usize = 0;
        while k < 8
            invariant
                k <= 8,
                id_bytes@ == u64_le((lo + j) as u64),
                r@ == before + id_bytes@.subrange(0, k as int),
            decreases 8 - k,
        {
            r.push(id_bytes[k]);
            k = k + 1;
            assert(r@ =~= before + id_bytes@.subrange(0, k as int));
        }
        let ghost mid = r@;
        k = 0;
        while k < 8
            invariant
                k <= 8,
                times_bytes@ == u64_le(times[lo + j] as u64),
                r@ == mid + times_bytes@.subrange(0, k as int),
            decreases 8 - k,
        {
            r.push(times_bytes[k]);
            k = k + 1;
            assert(r@ =~= mid + times_bytes@.subrange(0, k as int));
        }
        assert(id_bytes@.subrange(0, 8) =~= id_bytes@);
        assert(times_bytes@.subrange(0, 8) =~= times_bytes@);
        j = j + 1;
    }
    r
}

/// Writes the task info of snapshot `s` at user address `ti`, piece by
/// piece, stopping at the first piece that cannot be copied.
fn write_task_info(mem: &mut UserMemory, ti: usize, s: &TaskSnapshot) -> (r: bool)
    requires
        old(mem).wf(),
        ti + TASK_INFO_SIZE <= usize::MAX,
        s.syscall_times.len() == MAX_SYSCALL_NUM,
    ensures
        final(mem).wf(),
        final(mem).mapped == old(mem).mapped,
        final(mem).root_ppn == old(mem).root_ppn,
        ({
            let pieces = task_info_pieces(ti as int, s.id, status_code_spec(s.status), s.syscall_times@, s.time_ms);
            &&& r == pieces_ok(*old(mem), pieces, pieces.len() as int)
            &&& r ==> final(mem).bytes@ == apply_pieces(old(mem).bytes@, pieces, pieces.len() as int)
            &&& !r ==> exists|j: int| #[trigger] stopped_at(*old(mem), final(mem).bytes@, pieces, j)
        }),
{
    let ghost pieces = task_info_pieces(ti as int, s.id, status_code_spec(s.status), s.syscall_times@, s.time_ms);
    let ghost m0 = *old(mem);
    let id_bytes = u64_to_le_bytes(s.id as u64);
    assert(pieces[0] == (ti + OFF_ID, id_bytes@));
    if !copy_to_user(mem, ti + OFF_ID, id_bytes.as_slice()) {
        assert(stopped_at(m0, mem.bytes@, pieces, 0));
        return false;
    }
    assert(apply_pieces(m0.bytes@, pieces, 0) == m0.bytes@);
    assert(mem.bytes@ == apply_pieces(m0.bytes@, pieces, 1));
    let mut st: Vec<u8> = Vec::new();
    st.push(status_code(s.status));
    assert(pieces[1] == (ti + OFF_STATUS, st@));
    proof { lemma_same_mapping(m0, *mem); }
    if !copy_to_user(mem, ti + OFF_STATUS, st.as_slice()) {
        assert(stopped_at(m0, mem.bytes@, pieces, 1));
        return false;
    }
    assert(mem.bytes@ == apply_pieces(m0.bytes@, pieces, 2));
    let mut i: usize = 0;
    let mut b: usize = 0;
    while i < MAX_SYSCALL_NUM
        invariant
            m0 == *old(mem),
            pieces == task_info_pieces(ti as int, s.id, status_code_spec(s.status), s.syscall_times@, s.time_ms),
            ti + TASK_INFO_SIZE <= usize::MAX,
            s.syscall_times.len() == MAX_SYSCALL_NUM,
            b <= NUM_BATCHES,
            i == b * BATCH || (b == NUM_BATCHES && i == MAX_SYSCALL_NUM),
            i < MAX_SYSCALL_NUM ==> i == b * BATCH && b < NUM_BATCHES,
            i == MAX_SYSCALL_NUM ==> b == NUM_BATCHES,
            mem.wf(),
            mem.mapped == m0.mapped,
            mem.root_ppn == m0.root_ppn,
            mem.bytes.len() == m0.bytes.len(),
            pieces_ok(m0, pieces, b + 2),
            mem.bytes@ == apply_pieces(m0.bytes@, pieces, b + 2),
        decreases MAX_SYSCALL_NUM - i,
    {
        let n = if MAX_SYSCALL_NUM - i < BATCH { MAX_SYSCALL_NUM - i } else { BATCH };
        let buf = call_batch_bytes(&s.syscall_times, i, n);
        let dst = ti + OFF_CALL + i * SYSCALL_INFO_SIZE;
        assert(pieces[b + 2] == (dst as int, buf@));
        proof { lemma_same_mapping(m0, *mem); }
        if !copy_to_user(mem, dst, buf.as_slice()) {
            assert(stopped_at(m0, mem.bytes@, pieces, b + 2));
            return false;
        }
        i = i + n;
        b = b + 1;
    }
    let time_bytes = u64_to_le_bytes(s.time_ms as u64);
    assert(pieces[NUM_BATCHES + 2] == (ti + OFF_TIME, time_bytes@));
    proof { lemma_same_mapping(m0, *mem); }
    if !copy_to_user(mem, ti + OFF_TIME, time_bytes.as_slice()) {
        assert(stopped_at(m0, mem.bytes@, pieces, NUM_BATCHES + 2));
        return false;
    }
    true
}

/// Two address spaces with the same size and mapping map the same ranges.
proof fn lemma_same_mapping(a: UserMemory, b: UserMemory)
    requires
        a.mapped == b.mapped,
        a.bytes.len() == b.bytes.len(),
    ensures
        forall|start: int, len: int| #[trigger] a.range_mapped(start, len) == b.range_mapped(start, len),
{
    assert forall|start: int, len: int| #[trigger] a.range_mapped(start, len) == b.range_mapped(start, len) by {
        if a.range_mapped(start, len) {
            assert forall|x: int| start <= x < start + len implies #[trigger] b.is_mapped(x) by {
                assert(a.is_mapped(x));
            }
        }
        if b.range_mapped(start, len) {
            assert forall|x: int| start <= x < start + len implies #[trigger] a.is_mapped(x) by {
                assert(b.is_mapped(x));
            }
        }
    }
}

/// What `sys_task_info` does, from kernel `o` to kernel `f`.
pub open spec fn sys_task_info_spec(o: Kernel, f: Kernel, id: usize, ti: usize, now: usize, r: isize) -> bool {
    &&& r == 0 || r == -1
    &&& ((ti == 0 || !(o.pid2tcb@.contains_key(id) || o.processor.current == Some(id)))
            ==> r == -1 && f == o)
    &&& ((ti != 0 && (o.pid2tcb@.contains_key(id) || o.processor.current == Some(id))) ==> {
            let c = o.processor.current.unwrap() as int;
            let m = o.tasks[c].memory_set;
            let t = o.tasks[id as int];
            let pieces = task_info_pieces(
                ti as int,
                id,
                status_code_spec(t.task_status),
                t.syscall_times@,
                run_time_ms(t.first_schedule_time, now),
            );
            let fm = f.tasks[c].memory_set;
            &&& (r == 0) == pieces_ok(m, pieces, pieces.len() as int)
            &&& r == 0 ==> fm.bytes@ == apply_pieces(m.bytes@, pieces, pieces.len() as int)
            &&& r == -1 ==> exists|j: int| #[trigger] stopped_at(m, fm.bytes@, pieces, j)
            &&& fm.mapped == m.mapped
            &&& fm.root_ppn == m.root_ppn
            &&& f.tasks@ == o.tasks@.update(c, (TaskControlBlock { memory_set: fm, ..o.tasks[c] }))
            &&& f.task_manager == o.task_manager
            &&& f.pid2tcb == o.pid2tcb
            &&& f.processor == o.processor
            &&& f.same_machine(&o)
        })
}

/// Writes the task info of task `id` (at time `now`) to the current task's
/// user address `ti`: -1 when `ti` is null, when no live task has pid `id`,
/// or when some piece of the struct cannot be copied (the pieces before it
/// are written); 0 when all of it is written.
pub fn sys_task_info(k: &mut Kernel, id: usize, ti: usize, now: usize) -> (r: isize)
    requires
        old(k).wf(),
        old(k).processor.current is Some,
        ti + TASK_INFO_SIZE <= usize::MAX,
    ensures
        final(k).wf(),
        sys_task_info_spec(*old(k), *final(k), id, ti, now, r),
{
    if ti == 0 {
        return -1;
    }
    let snapshot = match get_task_snapshot(k, id, now) {
        Some(s) => s,
        None => return -1,
    };
    let cur = current_task(k).unwrap();
    proof {
        assert(k.tasks[id as int].wf_at(id as int, k.tasks.len() as int));
        assert(k.tasks[cur as int].wf_at(cur as int, k.tasks.len() as int));
    }
    let ok = write_task_info(&mut k.tasks[cur].memory_set, ti, &snapshot);
    proof {
        assert forall|p: int| 0 <= p < k.tasks.len() implies #[trigger] same_family(old(k).tasks[p], k.tasks[p])
            && k.tasks[p].task_status == old(k).tasks[p].task_status by {}
        lemma_wf_same_statuses(*old(k), *k);
    }
    if ok {
        0
    } else {
        -1
    }
}

/// What `sys_exit` does, from kernel `o` to kernel `f`.
pub open spec fn sys_exit_spec(o: Kernel, f: Kernel, exit_code: i32) -> bool {
    exit_current_spec(o, f, exit_code)
}

/// Ends the current task with `exit_code` (see `exit_current_and_run_next`).
pub fn sys_exit(k: &mut Kernel, exit_code: i32)
    requires
        old(k).wf(),
        old(k).processor.current is Some,
    ensures
        final(k).wf(),
        sys_exit_spec(*old(k), *final(k), exit_code),
{
    exit_current_and_run_next(k, exit_code);
}

/// What `sys_yield` does, from kernel `o` to kernel `f`.
pub open spec fn sys_yield_spec(o: Kernel, f: Kernel, r: isize) -> bool {
    &&& r == 0
    &&& suspend_spec(o, f, o.processor.current.unwrap())
}

/// Gives up the processor: the current task goes to the back of the ready
/// queue. Returns 0.
pub fn sys_yield(k: &mut Kernel) -> (r: isize)
    requires
        old(k).wf(),
        old(k).processor.current is Some,
    ensures
        final(k).wf(),
        sys_yield_spec(*old(k), *final(k), r),
{
    suspend_current_and_run_next(k);
    0
}

/// The bytes of a `TimeVal` for `ms` milliseconds: seconds then microseconds.
pub open spec fn time_val_bytes(ms: usize) -> Seq<u8> {
    u64_le((ms / 1000) as u64) + u64_le(((ms % 1000) * 1000) as u64)
}

/// What `sys_get_time` does, from kernel `o` to kernel `f`.
pub open spec fn sys_get_time_spec(o: Kernel, f: Kernel, ts: usize, now: usize, r: isize) -> bool {
    &&& ts == 0 ==> r == now as isize && f == o
    &&& (ts != 0 ==> {
            let c = o.processor.current.unwrap() as int;
            let m = o.tasks[c].memory_set;
            &&& (r == 0) == m.range_mapped(ts as int, 16)
            &&& r == 0 || r == -1
            &&& r == -1 ==> f.tasks@ == o.tasks@
            &&& r == 0 ==> f.tasks@ == o.tasks@.update(
                c,
                (TaskControlBlock {
                    memory_set: UserMemory { bytes: f.tasks[c].memory_set.bytes, ..m },
                    ..o.tasks[c]
                }),
            )
            &&& r == 0 ==> f.tasks[c].memory_set.bytes@ == write_spec(m.bytes@, ts as int, time_val_bytes(now))
            &&& f.task_manager == o.task_manager
            &&& f.pid2tcb == o.pid2tcb
            &&& f.processor == o.processor
            &&& f.same_machine(&o)
        })
}

/// The time `now` (ms): returned directly when `ts` is null, otherwise
/// written as a `TimeVal` to the current task's address `ts` (0 on success,
/// -1 when the 16 bytes are not all mapped, writing nothing).
pub fn sys_get_time(k: &mut Kernel, ts: usize, _tz: usize, now: usize) -> (r: isize)
    requires
        old(k).wf(),
        old(k).processor.current is Some,
    ensures
        final(k).wf(),
        sys_get_time_spec(*old(k), *final(k), ts, now, r),
{
    if ts == 0 {
        return now as isize;
    }
    let cur = current_task(k).unwrap();
    proof {
        assert(k.tasks[cur as int].wf_at(cur as int, k.tasks.len() as int));
    }
    let time_val = TimeVal { sec: now / 1000, usec: (now % 1000) * 1000 };
    let mut bytes = u64_to_le_bytes(time_val.sec as u64);
    let mut usec_bytes = u64_to_le_bytes(time_val.usec as u64);
    bytes.append(&mut usec_bytes);
    assert(bytes@ =~= time_val_bytes(now));
    let ok = copy_to_user(&mut k.tasks[cur].memory_set, ts, bytes.as_slice());
    proof {
        assert forall|p: int| 0 <= p < k.tasks.len() implies #[trigger] same_family(old(k).tasks[p], k.tasks[p])
            && k.tasks[p].task_status == old(k).tasks[p].task_status by {}
        lemma_wf_same_statuses(*old(k), *k);
        if !ok {
            assert(k.tasks@ =~= old(k).tasks@);
        }
    }
    if ok {
        0
    } else {
        -1
    }
}

/// The pid of the current task.
pub fn sys_get_task_id(k: &Kernel) -> (r: isize)
    requires
        k.wf(),
        k.processor.current is Some,
    ensures
        r == k.processor.current.unwrap() as isize,
        r >= 0,
{
    let cur = current_task(k).unwrap();
    proof {
        assert(k.tasks[cur as int].wf_at(cur as int, k.tasks.len() as int));
    }
    k.tasks[cur].getpid() as isize
}

/// The pid of the current task.
pub fn sys_getpid(k: &Kernel) -> (r: isize)
    requires
        k.wf(),
        k.processor.current is Some,
    ensures
        r == k.processor.current.unwrap() as isize,
        r >= 0,
{
    let cur = current_task(k).unwrap();
    proof {
        assert(k.tasks[cur as int].wf_at(cur as int, k.tasks.len() as int));
    }
    k.tasks[cur].pid as isize
}

/// What `sys_sbrk` does, from kernel `o` to kernel `f`.
pub open spec fn sys_sbrk_spec(o: Kernel, f: Kernel, size: i32, r: isize) -> bool {
    &&& (({
            let t = o.tasks[o.processor.current.unwrap() as int];
            match new_brk_spec(t.program_brk, size, t.heap_bottom, t.memory_set.bytes.len() as usize) {
                None => r == -1 && f == o,
                Some(nb) => r == t.program_brk as isize && brk_moved(o, f, size, nb),
            }
        }))
}

/// Moves the current task's heap end by `size` bytes: the old end, or -1
/// when the move is refused (see `change_program_brk`).
pub fn sys_sbrk(k: &mut Kernel, size: i32) -> (r: isize)
    requires
        old(k).wf(),
        old(k).processor.current is Some,
    ensures
        final(k).wf(),
        sys_sbrk_spec(*old(k), *final(k), size, r),
{
    proof {
        let c = k.processor.current.unwrap() as int;
        assert(k.tasks[c].wf_at(c, k.tasks.len() as int));
        assert(k.tasks[c].program_brk <= k.tasks[c].memory_set.bytes.len());
    }
    if let Some(old_brk) = change_program_brk(k, size) {
        old_brk as isize
    } else {
        -1
    }
}

/// The pid that `fork` gives a child: the last freed pid if there is one,
/// otherwise the next unused one.
pub open spec fn fork_pid(k: Kernel) -> usize {
    if k.free_pids.len() > 0 {
        k.free_pids@.last()
    } else {
        k.tasks.len() as usize
    }
}

/// Creates a child of the current task with pid `fork_pid`: a copy of the
/// parent's address space, heap and trap context (with `a0` = 0 and its own
/// kernel stack), Ready at the back of the queue. Returns the child's pid.
pub fn sys_fork(k: &mut Kernel) -> (r: isize)
    requires
        old(k).wf(),
        old(k).processor.current is Some,
        old(k).free_pids.len() > 0 || old(k).tasks.len() < MAX_TASKS,
    ensures
        final(k).wf(),
        ({
            let c = old(k).processor.current.unwrap() as int;
            let parent = old(k).tasks[c];
            let n = old(k).tasks.len();
            let z = fork_pid(*old(k));
            let child = final(k).tasks[z as int];
            &&& r == z as isize
            &&& final(k).tasks.len() == (if old(k).free_pids.len() > 0 { n as int } else { n + 1 })
            &&& final(k).free_pids@ == (if old(k).free_pids.len() > 0 {
                old(k).free_pids@.drop_last()
            } else {
                old(k).free_pids@
            })
            &&& forall|p: int| 0 <= p < n && p != c && p != z ==> #[trigger] final(k).tasks[p] == old(k).tasks[p]
            &&& final(k).tasks[c] == (TaskControlBlock { children: final(k).tasks[c].children, ..parent })
            &&& final(k).tasks[c].children@ == parent.children@.push(z)
            &&& child.pid == z
            &&& child.task_status == TaskStatus::Ready
            &&& child.parent == Some(c as usize)
            &&& child.children@ == Seq::<usize>::empty()
            &&& child.memory_set.bytes@ == parent.memory_set.bytes@
            &&& child.memory_set.mapped@ == parent.memory_set.mapped@
            &&& child.memory_set.root_ppn == parent.memory_set.root_ppn
            &&& child.heap_bottom == parent.heap_bottom
            &&& child.program_brk == parent.program_brk
            &&& child.trap_cx == (TrapContext {
                x: child.trap_cx.x,
                kernel_sp: kstack_top_spec(z as int) as usize,
                ..parent.trap_cx
            })
            &&& child.trap_cx.x@ == parent.trap_cx.x@.update(10, 0)
            &&& child.kernel_stack_top == kstack_top_spec(z as int)
            &&& child.task_cx.ra == old(k).trap_return_addr
            &&& child.task_cx.sp == kstack_top_spec(z as int)
            &&& child.syscall_times@ == Seq::new(MAX_SYSCALL_NUM as nat, |i: int| 0u32)
            &&& child.first_schedule_time == 0
            &&& child.exit_code == 0
            &&& child.signals.bits == 0
            &&& final(k).task_manager@ == old(k).task_manager@.push(z)
            &&& final(k).pid2tcb@ == old(k).pid2tcb@.insert(z, z)
            &&& final(k).processor == old(k).processor
            &&& final(k).same_env(old(k))
        }),
{
    broadcast use vstd::std_specs::btree::group_btree_axioms;
    let cur = current_task(k).unwrap();
    let n = k.tasks.len();
    proof {
        assert(k.tasks[cur as int].wf_at(cur as int, n as int));
        if k.free_pids.len() > 0 {
            assert(k.free_pids@.last() == k.free_pids[k.free_pids.len() - 1]);
        }
    }
    let reuse = k.free_pids.len() > 0;
    let new_pid = match k.free_pids.pop() {
        Some(p) => p,
        None => n,
    };
    assert(new_pid == fork_pid(*old(k)));
    let kstack = kernel_stack_top(new_pid);
    let memory_set = k.tasks[cur].memory_set.from_existed_user();
    let mut trap_cx = k.tasks[cur].trap_cx;
    trap_cx.kernel_sp = kstack;
    trap_cx.x[10] = 0;
    let syscall_times = vec![0u32; MAX_SYSCALL_NUM];
    assert(syscall_times@ =~= Seq::new(MAX_SYSCALL_NUM as nat, |i: int| 0u32));
    let child = TaskControlBlock {
        pid: new_pid,
        kernel_stack_top: kstack,
        task_status: TaskStatus::Ready,
        task_cx: TaskContext::goto_trap_return(kstack, k.trap_return_addr),
        trap_cx,
        memory_set,
        heap_bottom: k.tasks[cur].heap_bottom,
        program_brk: k.tasks[cur].program_brk,
        parent: Some(cur),
        children: Vec::new(),
        exit_code: 0,
        syscall_times,
        first_schedule_time: 0,
        signals: SignalFlags::empty(),
    };
    if reuse {
        k.tasks.set(new_pid, child);
    } else {
        k.tasks.push(child);
    }
    k.tasks[cur].children.push(new_pid);
    add_task(k, new_pid);
    proof {
        lemma_fork_keeps_wf(*old(k), *k, cur, new_pid);
        assert(k.tasks[cur as int].children@ =~= old(k).tasks[cur as int].children@.push(new_pid));
        assert(k.tasks[new_pid as int].trap_cx.x@ =~= old(k).tasks[cur as int].trap_cx.x@.update(10, 0));
    }
    new_pid as isize
}

/// Entering a fresh child `z` of the current task `c` (at a free pid or the
/// next unused one) keeps the kernel invariant.
proof fn lemma_fork_keeps_wf(o: Kernel, f: Kernel, c: usize, z: usize)
    requires
        o.wf(),
        o.processor.current == Some(c),
        z == fork_pid(o),
        o.free_pids.len() > 0 || o.tasks.len() < MAX_TASKS,
        f.tasks.len() == (if o.free_pids.len() > 0 { o.tasks.len() as int } else { o.tasks.len() + 1 }),
        f.free_pids@ == (if o.free_pids.len() > 0 { o.free_pids@.drop_last() } else { o.free_pids@ }),
        forall|p: int| 0 <= p < o.tasks.len() && p != c && p != z ==> #[trigger] f.tasks[p] == o.tasks[p],
        f.tasks[c as int] == (TaskControlBlock { children: f.tasks[c as int].children, ..o.tasks[c as int] }),
        f.tasks[c as int].children@ == o.tasks[c as int].children@.push(z),
        f.tasks[z as int].pid == z,
        f.tasks[z as int].task_status == TaskStatus::Ready,
        f.tasks[z as int].parent == Some(c),
        f.tasks[z as int].children@ == Seq::<usize>::empty(),
        f.tasks[z as int].memory_set.wf(),
        f.tasks[z as int].heap_bottom <= f.tasks[z as int].program_brk <= f.tasks[z as int].memory_set.bytes.len(),
        f.tasks[z as int].syscall_times.len() == MAX_SYSCALL_NUM,
        f.task_manager@ == o.task_manager@.push(z),
        f.pid2tcb@ == o.pid2tcb@.insert(z, z),
        f.processor == o.processor,
        f.apps == o.apps,
    ensures
        f.wf(),
{
    let n = o.tasks.len() as int;
    let m = f.tasks.len() as int;
    let of = o.free_pids@;
    let reuse = o.free_pids.len() > 0;
    assert(o.tasks[c as int].task_status == TaskStatus::Running);
    assert(o.tasks[c as int].wf_at(c as int, n));
    assert(o.tasks[c as int].parent != Some(c));
    if reuse {
        assert(of.last() == of[of.len() - 1]);
        assert(o.tasks[z as int].task_status == TaskStatus::Exited);
        assert(z != IDLE_PID && z < n);
    }
    assert(z != c);
    assert(z < m);
    assert(n > 0);
    // z is in no children list of `o`
    assert forall|p: int, i: int| 0 <= p < n && 0 <= i < o.tasks[p].children.len() implies #[trigger] o.tasks[p].children[i] != z by {
        assert(o.tasks[p].wf_at(p, n));
        if reuse {
            assert(o.tasks[p].children[i] != o.free_pids[of.len() - 1]);
        }
    }
    assert forall|p: int| 0 <= p < m implies #[trigger] f.tasks[p].wf_at(p, m) by {
        if p != z as int && p != c as int {
            assert(o.tasks[p].wf_at(p, n));
        } else if p == c as int {
            assert forall|i: int| 0 <= i < f.tasks[p].children.len() implies #[trigger] f.tasks[p].children[i] < m by {
                if i < o.tasks[p].children.len() {
                    assert(f.tasks[p].children[i] == o.tasks[p].children[i]);
                }
            }
        }
    }
    assert forall|p: int| 0 <= p < m implies ((#[trigger] f.tasks[p]).parent matches Some(q) ==> q != p) by {
        if p != z as int && p != c as int {
            assert(o.tasks[p].parent matches Some(q) ==> q != p);
        }
    }
    assert(f.tasks[0].parent is None) by {
        assert(o.tasks[0].parent is None);
        assert(z != 0);
        if c != 0 {
            assert(f.tasks[0] == o.tasks[0]);
        }
    }
    assert forall|p: int, i: int| 0 <= p < m && 0 <= i < f.tasks[p].children.len() implies #[trigger] f.tasks[f.tasks[p].children[i] as int].parent == Some(p as usize) by {
        if p == z as int {
        } else if p == c as int && i == o.tasks[p].children.len() {
            assert(f.tasks[p].children[i] == z);
        } else {
            assert(f.tasks[p].children[i] == o.tasks[p].children[i]);
            let x = o.tasks[p].children[i];
            assert(o.tasks[p].wf_at(p, n));
            assert(o.tasks[x as int].parent == Some(p as usize));
            assert(x != z);
            if x != c {
                assert(f.tasks[x as int] == o.tasks[x as int]);
            }
        }
    }
    assert forall|p: int, i: int, j: int| 0 <= p < m && 0 <= i < j < f.tasks[p].children.len() implies #[trigger] f.tasks[p].children[i]
        != #[trigger] f.tasks[p].children[j] by {
        if p == z as int {
        } else if p == c as int && j == o.tasks[p].children.len() {
            assert(f.tasks[p].children[i] == o.tasks[p].children[i]);
        } else {
            assert(f.tasks[p].children[i] == o.tasks[p].children[i]);
            assert(f.tasks[p].children[j] == o.tasks[p].children[j]);
            assert(o.tasks[p].children[i] != o.tasks[p].children[j]);
        }
    }
    assert forall|i: int| 0 <= i < f.free_pids.len() implies #[trigger] f.free_pids[i] < m && f.free_pids[i]
        != IDLE_PID && f.tasks[f.free_pids[i] as int].task_status == TaskStatus::Exited by {
        assert(f.free_pids[i] == of[i]);
        assert(o.free_pids[i] < n);
        if reuse {
            assert(o.free_pids[i] != o.free_pids[of.len() - 1]);
        }
        assert(o.free_pids[i] != c);
    }
    assert forall|i: int, j: int| 0 <= i < j < f.free_pids.len() implies #[trigger] f.free_pids[i] != #[trigger] f.free_pids[j] by {
        assert(f.free_pids[i] == of[i] && f.free_pids[j] == of[j]);
        assert(o.free_pids[i] != o.free_pids[j]);
    }
    assert forall|p: int, i: int, j: int| 0 <= p < m && 0 <= i < f.tasks[p].children.len() && 0 <= j < f.free_pids.len()
        implies #[trigger] f.tasks[p].children[i] != #[trigger] f.free_pids[j] by {
        assert(f.free_pids[j] == of[j]);
        if p == z as int {
        } else if p == c as int && i == o.tasks[p].children.len() {
            assert(f.tasks[p].children[i] == z);
            if reuse {
                assert(o.free_pids[j] != o.free_pids[of.len() - 1]);
            } else {
                assert(o.free_pids[j] < n);
            }
        } else {
            assert(f.tasks[p].children[i] == o.tasks[p].children[i]);
            assert(o.tasks[p].children[i] != o.free_pids[j]);
        }
    }
    assert(f.wf_tasks());
    // queue
    let q = o.task_manager@;
    assert forall|i: int| 0 <= i < q.len() implies q[i] != z && q[i] != c by {
        assert(o.tasks[q[i] as int].task_status == TaskStatus::Ready);
    }
    assert forall|i: int| 0 <= i < f.task_manager@.len() implies #[trigger] f.task_manager@[i] < f.tasks.len() by {
        if i < q.len() { assert(f.task_manager@[i] == q[i]); }
    }
    assert forall|i: int| 0 <= i < f.task_manager@.len() implies f.tasks[#[trigger] f.task_manager@[i] as int].task_status == TaskStatus::Ready by {
        if i < q.len() {
            assert(f.task_manager@[i] == q[i]);
            assert(o.tasks[q[i] as int].task_status == TaskStatus::Ready);
        }
    }
    assert forall|i: int, j: int| 0 <= i < j < f.task_manager@.len() implies #[trigger] f.task_manager@[i] != #[trigger] f.task_manager@[j] by {
        if j < q.len() {
            assert(f.task_manager@[i] == q[i] && f.task_manager@[j] == q[j]);
        } else {
            assert(f.task_manager@[i] == q[i]);
        }
    }
    assert forall|p: int| 0 <= p < m && (#[trigger] f.tasks[p]).task_status == TaskStatus::Ready implies f.task_manager@.contains(p as usize) by {
        if p == z as int {
            assert(f.task_manager@[q.len() as int] == z);
        } else {
            assert(o.tasks[p].task_status == TaskStatus::Ready);
            assert(q.contains(p as usize));
            let i = choose|i: int| 0 <= i < q.len() && q[i] == p as usize;
            assert(f.task_manager@[i] == p as usize);
        }
    }
    assert(f.wf_queue());
    assert forall|p: int| 0 <= p < m && (#[trigger] f.tasks[p]).task_status == TaskStatus::Running implies f.processor.current == Some(p as usize) by {
        if p != z as int && p != c as int {
            assert(o.tasks[p].task_status == TaskStatus::Running);
        }
    }
    assert(f.wf_current());
    assert forall|p: usize| #[trigger] f.pid2tcb@.contains_key(p) implies p < f.tasks.len() && f.pid2tcb@[p] == p by {
        if p != z {
            assert(o.pid2tcb@.contains_key(p));
        }
    }
    assert forall|p: int| 0 <= p < m && (#[trigger] f.tasks[p]).task_status != TaskStatus::Exited implies f.pid2tcb@.contains_key(p as usize) by {
        if p != z as int && p != c as int {
            assert(o.tasks[p].task_status != TaskStatus::Exited);
        }
    }
    assert(f.wf_pid2tcb());
}

/// Task `t` after it started to run application `app` afresh: the app's
/// address space and heap, and a trap context for its entry point.
pub open spec fn exec_result(k: &Kernel, t: TaskControlBlock, app: int, f: TaskControlBlock) -> bool {
    let a = k.apps[app];
    &&& f == (TaskControlBlock {
        memory_set: f.memory_set,
        heap_bottom: a.heap_bottom,
        program_brk: a.heap_bottom,
        trap_cx: f.trap_cx,
        ..t
    })
    &&& f.memory_set.bytes@ == a.memory.bytes@
    &&& f.memory_set.mapped@ == a.memory.mapped@
    &&& f.memory_set.root_ppn == a.memory.root_ppn
    &&& f.trap_cx.x@ == Seq::new(32, |i: int| if i == 2 { a.user_sp } else { 0usize })
    &&& f.trap_cx.sepc == a.entry
    &&& f.trap_cx.kernel_satp == satp_token(k.kernel_root_ppn)
    &&& f.trap_cx.kernel_sp == t.kernel_stack_top
    &&& f.trap_cx.trap_handler == k.trap_handler_addr
    &&& f.trap_cx.sstatus == sstatus_user_spp(k.sstatus)
}

/// Replaces the current task's program by the application whose name is
/// the NUL-terminated string at `path`: 0 on success, -1 when no
/// application has that name (nothing changes).
pub fn sys_exec(k: &mut Kernel, path: usize) -> (r: isize)
    requires
        old(k).wf(),
        old(k).processor.current is Some,
        exists|n: int|
            0 <= n && #[trigger] old(k).tasks[old(k).processor.current.unwrap() as int].memory_set.range_mapped(
                path as int,
                n + 1,
            ) && old(k).tasks[old(k).processor.current.unwrap() as int].memory_set.bytes[path + n] == 0,
    ensures
        final(k).wf(),
        forall|name: Seq<u8>|
            #[trigger] is_cstr_at(
                old(k).tasks[old(k).processor.current.unwrap() as int].memory_set.bytes@,
                path as int,
                name,
            ) ==> {
                let c = old(k).processor.current.unwrap() as int;
                &&& (r == -1) == (forall|j: int| 0 <= j < old(k).apps.len() ==> (#[trigger] old(k).apps[j]).name@ != name)
                &&& r == 0 || r == -1
                &&& r == -1 ==> *final(k) == *old(k)
                &&& r == 0 ==> exists|i: int|
                    #[trigger] app_named(old(k).apps@, name, i) && exec_result(old(k), old(k).tasks[c], i, final(k).tasks[c])
                &&& r == 0 ==> final(k).tasks.len() == old(k).tasks.len()
                &&& r == 0 ==> forall|p: int| 0 <= p < old(k).tasks.len() && p != c ==> #[trigger] final(k).tasks[p] == old(k).tasks[p]
                &&& final(k).task_manager == old(k).task_manager
                &&& final(k).pid2tcb == old(k).pid2tcb
                &&& final(k).processor == old(k).processor
                &&& final(k).same_machine(old(k))
            },
{
    let cur = current_task(k).unwrap();
    proof {
        assert(k.tasks[cur as int].wf_at(cur as int, k.tasks.len() as int));
    }
    let name = translated_str(&k.tasks[cur].memory_set, path);
    let app = match open_file(&k.apps, name.as_slice()) {
        Some(a) => a,
        None => {
            proof {
                assert forall|nm: Seq<u8>| #[trigger] is_cstr_at(old(k).tasks[cur as int].memory_set.bytes@, path as int, nm) implies nm == name@ by {
                    lemma_cstr_unique(old(k).tasks[cur as int].memory_set.bytes@, path as int, nm, name@);
                }
            }
            return -1;
        },
    };
    let kernel_token = token_of(k.kernel_root_ppn);
    let kstack = k.tasks[cur].kernel_stack_top;
    proof { assert(k.apps[app as int].wf()); }
    let memory_set = k.apps[app].memory.from_existed_user();
    let heap_bottom = k.apps[app].heap_bottom;
    let trap_cx = TrapContext::app_init_context(
        k.apps[app].entry,
        k.apps[app].user_sp,
        kernel_token,
        kstack,
        k.trap_handler_addr,
        k.sstatus,
    );
    k.tasks[cur].memory_set = memory_set;
    k.tasks[cur].heap_bottom = heap_bottom;
    k.tasks[cur].program_brk = heap_bottom;
    k.tasks[cur].trap_cx = trap_cx;
    proof {
        assert forall|p: int| 0 <= p < k.tasks.len() implies #[trigger] same_family(old(k).tasks[p], k.tasks[p])
            && k.tasks[p].task_status == old(k).tasks[p].task_status by {}
        lemma_wf_same_statuses(*old(k), *k);
        assert(app_named(old(k).apps@, name@, app as int));
        assert forall|nm: Seq<u8>| #[trigger] is_cstr_at(old(k).tasks[cur as int].memory_set.bytes@, path as int, nm) implies nm == name@ by {
            lemma_cstr_unique(old(k).tasks[cur as int].memory_set.bytes@, path as int, nm, name@);
        }
    }
    0
}

/// Whether child `c` is one that `waitpid(pid, ..)` asks for.
pub open spec fn wait_matches(pid: isize, c: usize) -> bool {
    pid == -1 || pid as usize == c
}

/// `ch[i]` is the first child that matches `pid` and has exited.
pub open spec fn first_zombie(k: &Kernel, ch: Seq<usize>, pid: isize, i: int) -> bool {
    &&& 0 <= i < ch.len()
    &&& wait_matches(pid, ch[i]) && k.tasks[ch[i] as int].is_zombie_spec()
    &&& forall|j: int| 0 <= j < i ==> !(wait_matches(pid, #[trigger] ch[j]) && k.tasks[ch[j] as int].is_zombie_spec())
}

/// What `sys_waitpid` does, from kernel `o` to kernel `f`, returning `r`.
pub open spec fn sys_waitpid_spec(o: Kernel, f: Kernel, pid: isize, exit_code_ptr: usize, r: isize) -> bool {
    let c = o.processor.current.unwrap() as int;
    let t = o.tasks[c];
    let ch = t.children@;
    &&& r == -1 || r == -2 || r >= 0
    &&& (r == -1) == (forall|i: int| 0 <= i < ch.len() ==> !wait_matches(pid, #[trigger] ch[i]))
    &&& (r == -2) == ((exists|i: int| 0 <= i < ch.len() && wait_matches(pid, #[trigger] ch[i]))
        && !(exists|i: int| #[trigger] first_zombie(&o, ch, pid, i)))
    &&& (exists|i: int| #[trigger] first_zombie(&o, ch, pid, i)) ==> r >= 0
    &&& (r == -1 || r == -2) ==> f == o
    &&& r >= 0 ==> exists|i: int| #[trigger] first_zombie(&o, ch, pid, i) && {
        let z = ch[i];
        &&& r == z as isize
        &&& f.tasks[c].children@ == ch.remove(i)
        &&& f.tasks[c].memory_set.bytes@ == write_spec(
            t.memory_set.bytes@,
            exit_code_ptr as int,
            i32_le(o.tasks[z as int].exit_code),
        )
        &&& f.tasks[c] == (TaskControlBlock {
            children: f.tasks[c].children,
            memory_set: UserMemory { bytes: f.tasks[c].memory_set.bytes, ..t.memory_set },
            ..t
        })
    }
    &&& r >= 0 ==> f.tasks.len() == o.tasks.len()
    &&& r >= 0 ==> forall|p: int| 0 <= p < o.tasks.len() && p != c ==> #[trigger] f.tasks[p] == o.tasks[p]
    &&& r >= 0 ==> f.free_pids@ == o.free_pids@.push(r as usize)
    &&& f.task_manager == o.task_manager
    &&& f.pid2tcb == o.pid2tcb
    &&& f.processor == o.processor
    &&& f.same_env(&o)
}

/// Reaps an exited child of the current task: the first child that matches
/// `pid` (-1: any) and is a zombie leaves the children list, its pid is
/// freed for reuse and its exit code is stored at the user address
/// `exit_code_ptr`; returns its pid.
/// -1 when no child matches `pid`; -2 when matching children exist but none
/// has exited (nothing changes in either case).
pub fn sys_waitpid(k: &mut Kernel, pid: isize, exit_code_ptr: usize) -> (r: isize)
    requires
        old(k).wf(),
        old(k).processor.current is Some,
        (exists|i: int| #[trigger] first_zombie(old(k), old(k).tasks[old(k).processor.current.unwrap() as int].children@, pid, i))
            ==> old(k).tasks[old(k).processor.current.unwrap() as int].memory_set.range_mapped(exit_code_ptr as int, 4),
    ensures
        final(k).wf(),
        sys_waitpid_spec(*old(k), *final(k), pid, exit_code_ptr, r),
{
    let cur = current_task(k).unwrap();
    let ghost ch = k.tasks[cur as int].children@;
    proof {
        assert(k.tasks[cur as int].wf_at(cur as int, k.tasks.len() as int));
    }
    let n = k.tasks[cur].children.len();
    let mut any = false;
    let mut i: usize = 0;
    while i < n
        invariant
            n == ch.len(),
            ch == k.tasks[cur as int].children@,
            cur < k.tasks.len(),
            i <= n,
            any == (exists|j: int| 0 <= j < i && wait_matches(pid, #[trigger] ch[j])),
        decreases n - i,
    {
        let c = k.tasks[cur].children[i];
        if pid == -1 || pid as usize == c {
            any = true;
        }
        i = i + 1;
    }
    if !any {
        return -1;
    }
    let mut found: Option<usize> = None;
    i = 0;
    while i < n
        invariant_except_break
            found is None,
            forall|j: int| 0 <= j < i ==> !(wait_matches(pid, #[trigger] ch[j]) && k.tasks[ch[j] as int].is_zombie_spec()),
        invariant
            n == ch.len(),
            ch == k.tasks[cur as int].children@,
            cur < k.tasks.len(),
            old(k).wf(),
            *k == *old(k),
            i <= n,
        ensures
            found is None ==> forall|j: int| 0 <= j < n ==> !(wait_matches(pid, #[trigger] ch[j]) && k.tasks[ch[j] as int].is_zombie_spec()),
            found matches Some(f) ==> first_zombie(k, ch, pid, f as int),
        decreases n - i,
    {
        let c = k.tasks[cur].children[i];
        proof {
            assert(k.tasks[cur as int].wf_at(cur as int, k.tasks.len() as int));
        }
        assert(c == ch[i as int]);
        if k.tasks[c].is_zombie() && (pid == -1 || pid as usize == c) {
            found = Some(i);
            assert(first_zombie(k, ch, pid, i as int));
            break;
        }
        i = i + 1;
    }
    match found {
        None => {
            proof {
                assert forall|j: int| !(#[trigger] first_zombie(old(k), ch, pid, j)) by {}
            }
            -2
        },
        Some(idx) => {
            let child = k.tasks[cur].children.remove(idx);
            proof {
                assert(old(k).tasks[cur as int].wf_at(cur as int, old(k).tasks.len() as int));
                assert(child == ch[idx as int]);
                assert(child < k.tasks.len());
            }
            let exit_code = k.tasks[child].exit_code;
            translated_refmut_write_i32(&mut k.tasks[cur].memory_set, exit_code_ptr, exit_code);
            k.free_pids.push(child);
            proof {
                lemma_waitpid_keeps_wf(*old(k), *k, cur, idx as int);
            }
            child as isize
        },
    }
}

/// A parent reaps an exited child exactly once: `waitpid` for the child
/// returns its pid, stores its exit code at the given address, takes it off
/// the children list and frees its pid; a second `waitpid` for the same
/// child finds no such child (-1).
pub proof fn lemma_waitpid_reaps_once(
    o: Kernel,
    m: Kernel,
    f: Kernel,
    z: usize,
    ptr1: usize,
    ptr2: usize,
    r1: isize,
    r2: isize,
)
    requires
        o.wf(),
        o.processor.current is Some,
        o.tasks[o.processor.current.unwrap() as int].children@.contains(z),
        o.tasks[z as int].is_zombie_spec(),
        sys_waitpid_spec(o, m, z as isize, ptr1, r1),
        m.wf(),
        sys_waitpid_spec(m, f, z as isize, ptr2, r2),
    ensures
        r1 == z as isize,
        !m.tasks[o.processor.current.unwrap() as int].children@.contains(z),
        m.tasks[o.processor.current.unwrap() as int].memory_set.bytes@ == write_spec(
            o.tasks[o.processor.current.unwrap() as int].memory_set.bytes@,
            ptr1 as int,
            i32_le(o.tasks[z as int].exit_code),
        ),
        m.free_pids@ == o.free_pids@.push(z),
        r2 == -1,
{
    let c = o.processor.current.unwrap() as int;
    let n = o.tasks.len() as int;
    let ch = o.tasks[c].children@;
    assert(o.tasks[c].wf_at(c, n));
    let k = choose|k: int| 0 <= k < ch.len() && ch[k] == z;
    assert(z < n && n <= MAX_TASKS);
    assert forall|x: usize| #[trigger] wait_matches(z as isize, x) <==> x == z by {}
    assert forall|j: int| 0 <= j < ch.len() && j != k implies ch[j] != z by {
        assert(o.tasks[c].children[j] == ch[j] && o.tasks[c].children[k] == z);
        if j < k {
            assert(o.tasks[c].children[j] != o.tasks[c].children[k]);
        } else {
            assert(o.tasks[c].children[k] != o.tasks[c].children[j]);
        }
    }
    assert(first_zombie(&o, ch, z as isize, k));
    let i = choose|i: int| #[trigger] first_zombie(&o, ch, z as isize, i) && {
        let zz = ch[i];
        &&& r1 == zz as isize
        &&& m.tasks[c].children@ == ch.remove(i)
        &&& m.tasks[c].memory_set.bytes@ == write_spec(
            o.tasks[c].memory_set.bytes@,
            ptr1 as int,
            i32_le(o.tasks[zz as int].exit_code),
        )
        &&& m.tasks[c] == (TaskControlBlock {
            children: m.tasks[c].children,
            memory_set: UserMemory { bytes: m.tasks[c].memory_set.bytes, ..o.tasks[c].memory_set },
            ..o.tasks[c]
        })
    };
    assert(i == k);
    let mc = m.tasks[c].children@;
    assert forall|j: int| 0 <= j < mc.len() implies mc[j] != z by {
        if j < k {
            assert(mc[j] == ch[j]);
        } else {
            assert(mc[j] == ch[j + 1]);
        }
    }
    assert(m.processor == o.processor);
}

/// Taking one child off the current task's list (and writing into its
/// address space without changing the mapping) keeps the kernel invariant.
proof fn lemma_waitpid_keeps_wf(o: Kernel, f: Kernel, c: usize, idx: int)
    requires
        o.wf(),
        c < o.tasks.len(),
        0 <= idx < o.tasks[c as int].children.len(),
        f.tasks.len() == o.tasks.len(),
        f.apps == o.apps,
        f.task_manager == o.task_manager,
        f.pid2tcb == o.pid2tcb,
        f.processor == o.processor,
        o.tasks[o.tasks[c as int].children[idx] as int].task_status == TaskStatus::Exited,
        f.free_pids@ == o.free_pids@.push(o.tasks[c as int].children[idx]),
        forall|p: int| 0 <= p < o.tasks.len() && p != c ==> #[trigger] f.tasks[p] == o.tasks[p],
        f.tasks[c as int].children@ == o.tasks[c as int].children@.remove(idx),
        f.tasks[c as int] == (TaskControlBlock {
            children: f.tasks[c as int].children,
            memory_set: UserMemory { bytes: f.tasks[c as int].memory_set.bytes, ..o.tasks[c as int].memory_set },
            ..o.tasks[c as int]
        }),
        f.tasks[c as int].memory_set.bytes.len() == o.tasks[c as int].memory_set.bytes.len(),
    ensures
        f.wf(),
{
    let n = o.tasks.len() as int;
    let ch = o.tasks[c as int].children@;
    assert(o.tasks[c as int].wf_at(c as int, n));
    assert forall|i: int| 0 <= i < f.tasks[c as int].children.len() implies #[trigger] f.tasks[c as int].children[i] == ch[if i < idx { i } else { i + 1 }] by {}
    assert forall|p: int| 0 <= p < n implies #[trigger] f.tasks[p].wf_at(p, n) by {
        assert(o.tasks[p].wf_at(p, n));
        if p == c as int {
            assert forall|i: int| 0 <= i < f.tasks[p].children.len() implies #[trigger] f.tasks[p].children[i] < n by {
                assert(f.tasks[c as int].children[i] == ch[if i < idx { i } else { i + 1 }]);
            }
        }
    }
    assert forall|p: int| 0 <= p < n implies ((#[trigger] f.tasks[p]).parent matches Some(q) ==> q != p) by {
        assert(o.tasks[p].parent matches Some(q) ==> q != p);
    }
    let z = ch[idx];
    assert(o.tasks[c as int].children[idx] == z);
    assert(o.tasks[z as int].parent == Some(c));
    assert(o.tasks[0].parent is None);
    assert(o.tasks[c as int].parent != Some(c));
    assert(z != c && z != IDLE_PID && z < n);
    assert(f.tasks[0].parent is None);
    assert forall|p: int, i: int, j: int| 0 <= p < n && 0 <= i < j < f.tasks[p].children.len() implies #[trigger] f.tasks[p].children[i]
        != #[trigger] f.tasks[p].children[j] by {
        if p == c as int {
            let oi = if i < idx { i } else { i + 1 };
            let oj = if j < idx { j } else { j + 1 };
            assert(f.tasks[p].children[i] == ch[oi] && f.tasks[p].children[j] == ch[oj]);
            assert(o.tasks[p].children[oi] != o.tasks[p].children[oj]);
        } else {
            assert(o.tasks[p].children[i] != o.tasks[p].children[j]);
        }
    }
    let of = o.free_pids@;
    assert forall|i: int| 0 <= i < f.free_pids.len() implies #[trigger] f.free_pids[i] < n && f.free_pids[i]
        != IDLE_PID && f.tasks[f.free_pids[i] as int].task_status == TaskStatus::Exited by {
        if i < of.len() {
            assert(f.free_pids[i] == of[i]);
            assert(o.free_pids[i] < n);
            assert(o.tasks[c as int].children[idx] != o.free_pids[i]);
        } else {
            assert(f.free_pids[i] == z);
        }
    }
    assert forall|i: int, j: int| 0 <= i < j < f.free_pids.len() implies #[trigger] f.free_pids[i] != #[trigger] f.free_pids[j] by {
        if j < of.len() {
            assert(f.free_pids[i] == of[i] && f.free_pids[j] == of[j]);
            assert(o.free_pids[i] != o.free_pids[j]);
        } else {
            assert(f.free_pids[i] == of[i] && f.free_pids[j] == z);
            assert(o.tasks[c as int].children[idx] != o.free_pids[i]);
        }
    }
    assert forall|p: int, i: int, j: int| 0 <= p < n && 0 <= i < f.tasks[p].children.len() && 0 <= j < f.free_pids.len()
        implies #[trigger] f.tasks[p].children[i] != #[trigger] f.free_pids[j] by {
        let oi = if p == c as int { if i < idx { i } else { i + 1 } } else { i };
        assert(f.tasks[p].children[i] == o.tasks[p].children[oi]);
        if j < of.len() {
            assert(f.free_pids[j] == of[j]);
            assert(o.tasks[p].children[oi] != o.free_pids[j]);
        } else {
            assert(f.free_pids[j] == z);
            let x = o.tasks[p].children[oi];
            assert(o.tasks[x as int].parent == Some(p as usize));
            if p == c as int {
                assert(oi != idx);
                if oi < idx {
                    assert(o.tasks[p].children[oi] != o.tasks[p].children[idx]);
                } else {
                    assert(o.tasks[p].children[idx] != o.tasks[p].children[oi]);
                }
            }
        }
    }
    assert forall|p: int, i: int| 0 <= p < n && 0 <= i < f.tasks[p].children.len() implies #[trigger] f.tasks[f.tasks[p].children[i] as int].parent == Some(p as usize) by {
        let oi = if p == c as int { if i < idx { i } else { i + 1 } } else { i };
        assert(f.tasks[p].children[i] == o.tasks[p].children[oi]);
        let ci = o.tasks[p].children[oi];
        assert(o.tasks[p].wf_at(p, n));
        assert(o.tasks[ci as int].parent == Some(p as usize));
        assert(f.tasks[ci as int].parent == o.tasks[ci as int].parent);
    }
    assert(f.wf_tasks());
    assert forall|p: int| 0 <= p < n implies #[trigger] f.tasks[p].task_status == o.tasks[p].task_status by {}
    assert forall|i: int| 0 <= i < f.task_manager@.len() implies f.tasks[#[trigger] f.task_manager@[i] as int].task_status == TaskStatus::Ready by {
        assert(f.tasks[f.task_manager@[i] as int].task_status == o.tasks[f.task_manager@[i] as int].task_status);
    }
    assert forall|p: int| 0 <= p < n && (#[trigger] f.tasks[p]).task_status == TaskStatus::Ready implies f.task_manager@.contains(p as usize) by {
        assert(f.tasks[p].task_status == o.tasks[p].task_status);
    }
    assert forall|p: int| 0 <= p < n && (#[trigger] f.tasks[p]).task_status == TaskStatus::Running implies f.processor.current == Some(p as usize) by {
        assert(f.tasks[p].task_status == o.tasks[p].task_status);
    }
    assert forall|p: int| 0 <= p < n && (#[trigger] f.tasks[p]).task_status != TaskStatus::Exited implies f.pid2tcb@.contains_key(p as usize) by {
        assert(f.tasks[p].task_status == o.tasks[p].task_status);
    }
    if let Some(cc) = f.processor.current {
        assert(f.tasks[cc as int].task_status == o.tasks[cc as int].task_status);
    }
}

/// The pieces lie in increasing order, none overlapping a later one.
pub open spec fn pieces_sorted(pieces: Seq<(int, Seq<u8>)>) -> bool {
    forall|i: int, j: int|
        0 <= i < j < pieces.len() ==> #[trigger] pieces[i].0 + pieces[i].1.len() <= #[trigger] pieces[j].0
}

/// Writing `bytes` with pieces keeps its length.
proof fn lemma_apply_pieces_len(bytes: Seq<u8>, pieces: Seq<(int, Seq<u8>)>, k: int)
    ensures
        apply_pieces(bytes, pieces, k).len() == bytes.len(),
    decreases k,
{
    if k > 0 && k <= pieces.len() {
        lemma_apply_pieces_len(bytes, pieces, k - 1);
    }
}

/// After the first `k` of sorted pieces are written, an address inside
/// piece `j < k` holds that piece's byte.
proof fn lemma_apply_pieces_at(bytes: Seq<u8>, pieces: Seq<(int, Seq<u8>)>, k: int, j: int, a: int)
    requires
        0 <= j < k <= pieces.len(),
        pieces_sorted(pieces),
        pieces[j].0 <= a < pieces[j].0 + pieces[j].1.len(),
        0 <= a < bytes.len(),
    ensures
        apply_pieces(bytes, pieces, k)[a] == pieces[j].1[a - pieces[j].0],
    decreases k,
{
    lemma_apply_pieces_len(bytes, pieces, k - 1);
    if k - 1 == j {
    } else {
        lemma_apply_pieces_at(bytes, pieces, k - 1, j, a);
        assert(pieces[j].0 + pieces[j].1.len() <= pieces[k - 1].0);
    }
}

/// The task-info pieces are sorted and fill the struct's fields.
proof fn lemma_task_info_pieces_sorted(ti: int, id: usize, status: u8, times: Seq<u32>, time_ms: usize)
    ensures
        pieces_sorted(task_info_pieces(ti, id, status, times, time_ms)),
        task_info_pieces(ti, id, status, times, time_ms).len() == NUM_BATCHES + 3,
{
    let p = task_info_pieces(ti, id, status, times, time_ms);
    assert forall|i: int, j: int| 0 <= i < j < p.len() implies #[trigger] p[i].0 + p[i].1.len() <= #[trigger] p[j].0 by {
        if i >= 2 && i < NUM_BATCHES + 2 {
            let b = i - 2;
            assert(p[i].1.len() == batch_len(b) * 16);
            assert(batch_len(b) * 16 <= 512);
            assert(batch_lo(b) * 16 == b * 512);
            if j < NUM_BATCHES + 2 {
                assert(batch_lo(j - 2) * 16 == (j - 2) * 512);
            }
            if b == 15 {
                assert(batch_len(b) == 20);
            }
        }
        if j >= 2 && j < NUM_BATCHES + 2 {
            assert(batch_lo(j - 2) * 16 == (j - 2) * 512);
        }
    }
}

/// The little-endian value of the eight bytes at `a`.
pub open spec fn read_u64_at(bytes: Seq<u8>, a: int) -> u64 {
    u64_from_le(bytes.subrange(a, a + 8))
}

/// If eight bytes at `a` are the encoding of `x`, they read back as `x`.
proof fn lemma_read_back(bytes: Seq<u8>, a: int, x: u64)
    requires
        0 <= a,
        a + 8 <= bytes.len(),
        forall|o: int| 0 <= o < 8 ==> #[trigger] bytes[a + o] == u64_le(x)[o],
    ensures
        read_u64_at(bytes, a) == x,
{
    assert(bytes.subrange(a, a + 8) =~= u64_le(x)) by {
        assert forall|o: int| 0 <= o < 8 implies bytes.subrange(a, a + 8)[o] == u64_le(x)[o] by {
            assert(bytes[a + o] == u64_le(x)[o]);
        }
    }
    lemma_u64_le_roundtrip(x);
}

/// The run time that the task info of `t` reports at time `now`.
pub open spec fn run_time_ms_of(t: TaskControlBlock, now: usize) -> usize {
    run_time_ms(t.first_schedule_time, now)
}

/// The bytes `fb` hold, at `ti`, the task info of task `t` (pid `id`) at
/// time `now`.
pub open spec fn task_info_reads_back(fb: Seq<u8>, ti: int, id: usize, t: TaskControlBlock, now: usize) -> bool {
    &&& 0 <= ti
    &&& ti + TASK_INFO_SIZE <= fb.len()
    &&& read_u64_at(fb, ti + OFF_ID) == id as u64
    &&& fb[ti + OFF_STATUS] == status_code_spec(t.task_status)
    &&& (forall|e: int|
        0 <= e < MAX_SYSCALL_NUM ==> #[trigger] read_u64_at(fb, ti + OFF_CALL + 16 * e) == e as u64
            && read_u64_at(fb, ti + OFF_CALL + 16 * e + 8) == t.syscall_times[e] as u64)
    &&& read_u64_at(fb, ti + OFF_TIME) == run_time_ms(t.first_schedule_time, now) as u64
}

/// What a successful `sys_task_info` leaves in user memory reads back as
/// the reported task: its id at offset 0, its status byte at 8, entry `e`
/// of the call array (at 16 + 16e) holding `e` and the task's count of
/// system call `e`, and its run time at 8016.
pub proof fn lemma_task_info_read_back(o: Kernel, f: Kernel, id: usize, ti: usize, now: usize)
    requires
        o.wf(),
        o.processor.current is Some,
        ti + TASK_INFO_SIZE <= usize::MAX,
        sys_task_info_spec(o, f, id, ti, now, 0),
    ensures
        task_info_reads_back(
            f.tasks[o.processor.current.unwrap() as int].memory_set.bytes@,
            ti as int,
            id,
            o.tasks[id as int],
            now,
        ),
{
    let c = o.processor.current.unwrap() as int;
    let m = o.tasks[c].memory_set;
    let t = o.tasks[id as int];
    let status = status_code_spec(t.task_status);
    let times = t.syscall_times@;
    let time_ms = run_time_ms(t.first_schedule_time, now);
    let pieces = task_info_pieces(ti as int, id, status, times, time_ms);
    let fb = f.tasks[c].memory_set.bytes@;
    lemma_task_info_pieces_sorted(ti as int, id, status, times, time_ms);
    assert(ti != 0);
    assert(pieces_ok(m, pieces, pieces.len() as int));
    assert(fb == apply_pieces(m.bytes@, pieces, pieces.len() as int));
    lemma_apply_pieces_len(m.bytes@, pieces, pieces.len() as int);
    assert(o.tasks[id as int].wf_at(id as int, o.tasks.len() as int));
    // the last byte of the struct is mapped, so the struct fits
    assert(piece_ok(m, pieces[NUM_BATCHES + 2]));
    assert(m.is_mapped(ti + OFF_TIME + 7));
    let n = NUM_BATCHES + 3;
    // id
    assert forall|oo: int| 0 <= oo < 8 implies #[trigger] fb[ti + OFF_ID + oo] == u64_le(id as u64)[oo] by {
        lemma_apply_pieces_at(m.bytes@, pieces, n as int, 0, ti + OFF_ID + oo);
    }
    lemma_read_back(fb, ti + OFF_ID, id as u64);
    // status
    lemma_apply_pieces_at(m.bytes@, pieces, n as int, 1, ti + OFF_STATUS);
    // time
    assert forall|oo: int| 0 <= oo < 8 implies #[trigger] fb[ti + OFF_TIME + oo] == u64_le(time_ms as u64)[oo] by {
        lemma_apply_pieces_at(m.bytes@, pieces, n as int, NUM_BATCHES + 2, ti + OFF_TIME + oo);
    }
    lemma_read_back(fb, ti + OFF_TIME, time_ms as u64);
    // the call array
    assert forall|e: int| 0 <= e < MAX_SYSCALL_NUM implies #[trigger] read_u64_at(fb, ti + OFF_CALL + 16 * e) == e as u64
        && read_u64_at(fb, ti + OFF_CALL + 16 * e + 8) == t.syscall_times[e] as u64 by {
        let b = e / 32;
        assert(0 <= b < 16 && b * 32 <= e < b * 32 + 32) by (nonlinear_arith)
            requires 0 <= e < 500, b == e / 32;
        let j = b + 2;
        assert(batch_lo(b) == b * 32);
        assert(e - b * 32 < batch_len(b));
        assert(pieces[j].0 == ti + OFF_CALL + b * 512);
        assert(pieces[j].1 == call_bytes(times, b * 32, batch_len(b)));
        assert forall|oo: int| 0 <= oo < 8 implies #[trigger] fb[ti + OFF_CALL + 16 * e + oo] == u64_le(e as u64)[oo] by {
            let a = ti + OFF_CALL + 16 * e + oo;
            lemma_apply_pieces_at(m.bytes@, pieces, n as int, j, a);
            let kk = a - pieces[j].0;
            assert(kk == 16 * (e - b * 32) + oo);
            assert(kk / 16 == e - b * 32 && kk % 16 == oo) by (nonlinear_arith)
                requires kk == 16 * (e - b * 32) + oo, 0 <= oo < 8, e - b * 32 >= 0;
        }
        lemma_read_back(fb, ti + OFF_CALL + 16 * e, e as u64);
        assert forall|oo: int| 0 <= oo < 8 implies #[trigger] fb[ti + OFF_CALL + 16 * e + 8 + oo] == u64_le(times[e] as u64)[oo] by {
            let a = ti + OFF_CALL + 16 * e + 8 + oo;
            lemma_apply_pieces_at(m.bytes@, pieces, n as int, j, a);
            let kk = a - pieces[j].0;
            assert(kk == 16 * (e - b * 32) + 8 + oo);
            assert(kk / 16 == e - b * 32 && kk % 16 == 8 + oo) by (nonlinear_arith)
                requires kk == 16 * (e - b * 32) + 8 + oo, 0 <= oo < 8, e - b * 32 >= 0;
        }
        lemma_read_back(fb, ti + OFF_CALL + 16 * e + 8, times[e] as u64);
    }
    assert(ti + TASK_INFO_SIZE <= fb.len());
    assert(read_u64_at(fb, ti + OFF_ID) == id as u64);
    assert(fb[ti + OFF_STATUS] == status_code_spec(t.task_status));
    assert(read_u64_at(fb, ti + OFF_TIME) == run_time_ms(t.first_schedule_time, now) as u64);
    assert(forall|e: int| 0 <= e < MAX_SYSCALL_NUM ==> #[trigger] read_u64_at(fb, ti + OFF_CALL + 16 * e) == e as u64
                && read_u64_at(fb, ti + OFF_CALL + 16 * e + 8) == t.syscall_times[e] as u64);
    assert(f.tasks[c].memory_set.bytes@ == fb);
    assert(task_info_reads_back(fb, ti as int, id, t, now));
}

/// An exiting task stays among its parent's children as a zombie carrying
/// its exit code (its parent's list is kept, or, for the initial process,
/// extended), so its parent's `waitpid` can reap it.
pub proof fn lemma_exited_task_is_waitable(o: Kernel, f: Kernel, code: i32, parent: usize)
    requires
        o.wf(),
        o.processor.current is Some,
        o.tasks[o.processor.current.unwrap() as int].parent == Some(parent),
        o.tasks[parent as int].children@.contains(o.processor.current.unwrap()),
        exit_current_spec(o, f, code),
    ensures
        ({
            let t = o.processor.current.unwrap();
            &&& f.tasks[t as int].is_zombie_spec()
            &&& f.tasks[t as int].exit_code == code
            &&& f.tasks[parent as int].children@.contains(t)
            &&& f.tasks[t as int].parent == Some(parent)
        }),
{
    let t = o.processor.current.unwrap();
    let n = o.tasks.len() as int;
    assert(o.tasks[t as int].wf_at(t as int, n));
    assert(parent != t);
    assert(o.tasks[0].parent is None);
    assert(t != IDLE_PID);
    assert(o.tasks[parent as int].wf_at(parent as int, n));
    let ch = o.tasks[t as int].children@;
    if parent == IDLE_PID {
        let i = choose|i: int| 0 <= i < o.tasks[parent as int].children@.len() && o.tasks[parent as int].children@[i] == t;
        assert(f.tasks[parent as int].children@[i] == t);
    } else if ch.contains(parent) {
        assert(f.tasks[parent as int].children == o.tasks[parent as int].children);
    } else {
        assert(f.tasks[parent as int] == o.tasks[parent as int]);
    }
}
} // verus!

verus! {

/// `get_time` with a buffer writes the time as a `TimeVal`: the eight bytes
/// at `ts` read back as the whole seconds of `now` ms and the eight bytes
/// after them as the remaining milliseconds in microseconds, so that
/// `sec * 1000 + usec / 1000 == now`; a null buffer returns `now` itself.
pub proof fn lemma_get_time_is_the_time(o: Kernel, f: Kernel, ts: usize, now: usize, r: isize)
    requires
        o.wf(),
        o.processor.current is Some,
        sys_get_time_spec(o, f, ts, now, r),
    ensures
        ts == 0 ==> r == now as isize,
        (ts != 0 && r == 0) ==> {
            let b = f.tasks[o.processor.current.unwrap() as int].memory_set.bytes@;
            let sec = read_u64_at(b, ts as int);
            let usec = read_u64_at(b, ts + 8);
            &&& sec == now / 1000
            &&& usec == (now % 1000) * 1000
            &&& usec < 1_000_000
            &&& sec * 1000 + usec / 1000 == now
        },
{
    if ts != 0 && r == 0 {
        let c = o.processor.current.unwrap() as int;
        let m = o.tasks[c].memory_set;
        let b = f.tasks[c].memory_set.bytes@;
        let sec: u64 = (now / 1000) as u64;
        let usec: u64 = ((now % 1000) * 1000) as u64;
        let tv = u64_le(sec) + u64_le(usec);
        assert(tv =~= time_val_bytes(now));
        assert(m.is_mapped(ts + 15));
        assert(b == write_spec(m.bytes@, ts as int, tv));
        assert forall|oo: int| 0 <= oo < 8 implies #[trigger] b[ts + oo] == u64_le(sec)[oo] by {
            assert(tv[oo] == u64_le(sec)[oo]);
        }
        lemma_read_back(b, ts as int, sec);
        assert forall|oo: int| 0 <= oo < 8 implies #[trigger] b[ts + 8 + oo] == u64_le(usec)[oo] by {
            assert(tv[8 + oo] == u64_le(usec)[oo]);
        }
        lemma_read_back(b, ts + 8, usec);
        assert(now / 1000 * 1000 + now % 1000 == now) by (nonlinear_arith);
        assert((now % 1000) * 1000 / 1000 == now % 1000) by (nonlinear_arith);
    }
}

/// `sbrk(size)` accepts exactly the moves that keep the heap end within
/// `[heap_bottom, end of the address space]`: it then returns the old end
/// and the end moves by `size`; otherwise it returns -1 and nothing changes.
/// In particular `sbrk(0)` returns the current end and changes nothing.
pub proof fn lemma_sbrk_moves_the_end(o: Kernel, f: Kernel, size: i32, r: isize)
    requires
        o.wf(),
        o.processor.current is Some,
        sys_sbrk_spec(o, f, size, r),
    ensures
        ({
            let c = o.processor.current.unwrap() as int;
            let t = o.tasks[c];
            let ok = t.heap_bottom <= t.program_brk + size <= t.memory_set.bytes.len();
            &&& ok ==> r == t.program_brk as isize && f.tasks[c].program_brk == t.program_brk + size
                && f.tasks[c].heap_bottom == t.heap_bottom
            &&& !ok ==> r == -1 && f == o
            &&& size == 0 ==> r == t.program_brk as isize && f.tasks[c].program_brk == t.program_brk
                && f.tasks[c].memory_set.mapped@ == t.memory_set.mapped@
                && f.tasks[c].memory_set.bytes == t.memory_set.bytes
        }),
{
    let c = o.processor.current.unwrap() as int;
    let t = o.tasks[c];
    assert(t.wf_at(c, o.tasks.len() as int));
    if size == 0 {
        let top = page_ceil(t.program_brk as int);
        assert(with_pages(t.memory_set.mapped@, top, top, true) =~= t.memory_set.mapped@);
        assert(f.tasks[c].memory_set.mapped@ == t.memory_set.mapped@);
    }
}

} // verus!
