use rcgos::fs::App;
use rcgos::mm::UserMemory;
use rcgos::syscall::fs::sys_write;
use rcgos::syscall::process::{
    sys_exec, sys_exit, sys_fork, sys_get_task_id, sys_get_time, sys_getpid, sys_sbrk, sys_task_info, sys_waitpid,
    sys_yield, TASK_INFO_SIZE,
};
use rcgos::syscall::{syscall, SYSCALL_GET_TASK_ID, SYSCALL_TASK_INFO, SYSCALL_WRITE, SYSCALL_YIELD};
use rcgos::task::processor::{current_task, run_tasks_step};
use rcgos::user::{TaskInfo as UserTaskInfo, TaskStatus as UserStatus, TASK_INFO_BYTES};
use rcgos::task::{add_initproc, suspend_current_and_run_next, Kernel, TaskStatus, INITPROC_NAME};

const PAGES: usize = 8;
const PAGE: usize = 4096;

fn app(name: &[u8], ppn: usize, entry: usize, fill: u8) -> App {
    let mut memory = UserMemory::new(ppn, PAGES);
    for v in 0..4 {
        memory.set_mapped(v, true);
    }
    for a in 0..16 {
        memory.write_byte(a, fill);
    }
    App { name: name.to_vec(), memory, entry, user_sp: 3 * PAGE, heap_bottom: 4 * PAGE }
}

fn running_kernel() -> Kernel {
    let apps = vec![app(&INITPROC_NAME, 7, 0x100, 0), app(b"hello", 9, 0x200, 0xAB)];
    let mut k = Kernel::new(apps, 0x80200, 0x1111, 0x2222, 0x1FF);
    add_initproc(&mut k);
    run_tasks_step(&mut k, 10);
    k
}

fn mem(k: &Kernel) -> &UserMemory {
    &k.tasks[current_task(k).unwrap()].memory_set
}

fn read_u64(m: &UserMemory, a: usize) -> u64 {
    let mut v = 0u64;
    for i in 0..8 {
        v |= (m.read_byte(a + i).unwrap() as u64) << (8 * i);
    }
    v
}

fn put_str(k: &mut Kernel, at: usize, s: &[u8]) {
    let cur = current_task(k).unwrap();
    for (i, b) in s.iter().enumerate() {
        k.tasks[cur].memory_set.write_byte(at + i, *b);
    }
    k.tasks[cur].memory_set.write_byte(at + s.len(), 0);
}

#[test]
fn get_time_with_null_pointer_returns_ms() {
    let mut k = running_kernel();
    assert_eq!(sys_get_time(&mut k, 0, 0, 12345), 12345);
}

#[test]
fn get_time_writes_a_timeval() {
    let mut k = running_kernel();
    let ts = PAGE - 8; // straddles two pages
    assert_eq!(sys_get_time(&mut k, ts, 0, 12345), 0);
    assert_eq!(read_u64(mem(&k), ts), 12);
    assert_eq!(read_u64(mem(&k), ts + 8), 345_000);
}

#[test]
fn get_time_into_unmapped_memory_fails() {
    let mut k = running_kernel();
    let ts = 4 * PAGE - 8;
    assert_eq!(sys_get_time(&mut k, ts, 0, 12345), -1);
    assert_eq!(mem(&k).read_byte(ts), Some(0));
}

#[test]
fn task_info_reports_the_running_task() {
    let mut k = running_kernel();
    let ti = 100;
    let args = [0, ti, 0];
    assert_eq!(syscall(&mut k, SYSCALL_TASK_INFO, args, 60), 0);
    let m = mem(&k);
    assert_eq!(read_u64(m, ti), 0);
    // status byte: Running
    assert_eq!(m.read_byte(ti + 8), Some(2));
    // call[410] counts this very call; entries carry their ids
    assert_eq!(read_u64(m, ti + 16 + 410 * 16), 410);
    assert_eq!(read_u64(m, ti + 16 + 410 * 16 + 8), 1);
    assert_eq!(read_u64(m, ti + 16 + 64 * 16 + 8), 0);
    assert_eq!(read_u64(m, ti + 16 + 499 * 16), 499);
    // time since first run
    assert_eq!(read_u64(m, ti + 8016), 50);
}

#[test]
fn task_info_with_null_pointer_or_unknown_task_fails() {
    let mut k = running_kernel();
    assert_eq!(sys_task_info(&mut k, 0, 0, 1), -1);
    assert_eq!(sys_task_info(&mut k, 99, 100, 1), -1);
}

#[test]
fn task_info_stops_at_the_first_unmapped_piece() {
    let mut k = running_kernel();
    // the struct runs from the last mapped page into an unmapped one
    let ti = 4 * PAGE - 100;
    assert_eq!(sys_task_info(&mut k, 0, ti, 20), -1);
    let m = mem(&k);
    // id and status were written before the call array failed
    assert_eq!(read_u64(m, ti), 0);
    assert_eq!(m.read_byte(ti + 8), Some(2));
    assert_eq!(TASK_INFO_SIZE, 8024);
}

#[test]
fn get_task_id_and_getpid() {
    let mut k = running_kernel();
    assert_eq!(sys_get_task_id(&k), 0);
    assert_eq!(sys_getpid(&k), 0);
    assert_eq!(syscall(&mut k, SYSCALL_GET_TASK_ID, [0, 0, 0], 1), 0);
}

#[test]
fn write_copies_user_bytes_to_the_console() {
    let mut k = running_kernel();
    put_str(&mut k, PAGE - 2, b"ABC");
    assert_eq!(sys_write(&mut k, 1, PAGE - 2, 3), 3);
    assert_eq!(k.console, b"ABC".to_vec());
    assert_eq!(syscall(&mut k, SYSCALL_WRITE, [1, PAGE - 2, 2], 1), 2);
    assert_eq!(k.console, b"ABCAB".to_vec());
    assert_eq!(sys_write(&mut k, 1, 5, 0), 0);
}

#[test]
fn yield_returns_zero_and_requeues() {
    let mut k = running_kernel();
    assert_eq!(sys_yield(&mut k), 0);
    assert_eq!(current_task(&k), None);
    assert_eq!(k.tasks[0].task_status, TaskStatus::Ready);
    assert_eq!(run_tasks_step(&mut k, 11), Some(0));
    assert_eq!(syscall(&mut k, SYSCALL_YIELD, [0, 0, 0], 12), 0);
    assert_eq!(k.tasks[0].syscall_times[SYSCALL_YIELD], 1);
}

#[test]
fn sbrk_grows_and_shrinks_the_heap() {
    let mut k = running_kernel();
    let hb = 4 * PAGE;
    assert_eq!(sys_sbrk(&mut k, 100), hb as isize);
    assert_eq!(k.tasks[0].program_brk, hb + 100);
    assert!(k.tasks[0].memory_set.mapped[4]);
    assert!(!k.tasks[0].memory_set.mapped[5]);
    assert_eq!(sys_sbrk(&mut k, PAGE as i32), (hb + 100) as isize);
    assert!(k.tasks[0].memory_set.mapped[5]);
    assert_eq!(sys_sbrk(&mut k, -(PAGE as i32)), (hb + 100 + PAGE) as isize);
    assert!(k.tasks[0].memory_set.mapped[4]);
    assert!(!k.tasks[0].memory_set.mapped[5]);
    // below the heap's start, and beyond the address space: refused
    assert_eq!(sys_sbrk(&mut k, -1000), -1);
    assert_eq!(sys_sbrk(&mut k, (PAGES * PAGE) as i32), -1);
    assert_eq!(k.tasks[0].program_brk, hb + 100);
}

#[test]
fn fork_copies_the_parent() {
    let mut k = running_kernel();
    k.tasks[0].trap_cx.x[10] = 77;
    assert_eq!(sys_fork(&mut k), 1);
    let child = &k.tasks[1];
    assert_eq!(child.parent, Some(0));
    assert_eq!(child.task_status, TaskStatus::Ready);
    assert_eq!(child.trap_cx.x[10], 0);
    assert_eq!(child.memory_set.bytes, k.tasks[0].memory_set.bytes);
    assert_eq!(child.memory_set.mapped, k.tasks[0].memory_set.mapped);
    assert_eq!(k.tasks[0].trap_cx.x[10], 77);
    assert_eq!(k.tasks[0].children, vec![1]);
    assert_eq!(child.trap_cx.kernel_sp, child.kernel_stack_top);
    assert_eq!(child.kernel_stack_top, usize::MAX - 4096 + 1 - (8192 + 4096));
}

#[test]
fn waitpid_reaps_an_exited_child() {
    let mut k = running_kernel();
    assert_eq!(sys_fork(&mut k), 1);
    // no such child
    assert_eq!(sys_waitpid(&mut k, 5, 200), -1);
    // the child has not exited yet
    assert_eq!(sys_waitpid(&mut k, -1, 200), -2);
    assert_eq!(sys_waitpid(&mut k, 1, 200), -2);
    suspend_current_and_run_next(&mut k);
    assert_eq!(run_tasks_step(&mut k, 20), Some(1));
    sys_exit(&mut k, -3);
    assert_eq!(run_tasks_step(&mut k, 30), Some(0));
    assert_eq!(sys_waitpid(&mut k, -1, 200), 1);
    let m = mem(&k);
    let code = i32::from_le_bytes([
        m.read_byte(200).unwrap(),
        m.read_byte(201).unwrap(),
        m.read_byte(202).unwrap(),
        m.read_byte(203).unwrap(),
    ]);
    assert_eq!(code, -3);
    assert!(k.tasks[0].children.is_empty());
    assert_eq!(sys_waitpid(&mut k, -1, 200), -1);
}

#[test]
fn exec_replaces_the_program() {
    let mut k = running_kernel();
    put_str(&mut k, 300, b"hello");
    assert_eq!(sys_exec(&mut k, 300), 0);
    let t = &k.tasks[0];
    assert_eq!(t.trap_cx.sepc, 0x200);
    assert_eq!(t.trap_cx.x[2], 3 * PAGE);
    assert_eq!(t.trap_cx.sstatus & 0x100, 0);
    assert_eq!(t.memory_set.root_ppn, 9);
    assert_eq!(t.memory_set.read_byte(0), Some(0xAB));
    assert_eq!(t.program_brk, 4 * PAGE);
}

#[test]
fn exec_of_a_missing_program_fails() {
    let mut k = running_kernel();
    put_str(&mut k, 300, b"nothere");
    assert_eq!(sys_exec(&mut k, 300), -1);
    assert_eq!(k.tasks[0].trap_cx.sepc, 0x100);
}

#[test]
fn task_info_decodes_in_the_user_library() {
    let mut k = running_kernel();
    let ti = 64;
    rcgos::task::record_syscall_times(&mut k, 64);
    assert_eq!(syscall(&mut k, SYSCALL_TASK_INFO, [0, ti, 0], 35), 0);
    let bytes: Vec<u8> = (0..TASK_INFO_BYTES).map(|i| mem(&k).read_byte(ti + i).unwrap()).collect();
    let info = UserTaskInfo::from_bytes(&bytes).unwrap();
    assert_eq!(info.id, 0);
    assert_eq!(info.status, UserStatus::Running);
    assert_eq!(info.time, 25);
    for (i, c) in info.call.iter().enumerate() {
        assert_eq!(c.id, i);
        let expected = if i == 64 || i == SYSCALL_TASK_INFO { 1 } else { 0 };
        assert_eq!(c.times, expected);
    }
}

#[test]
fn sbrk_then_inverse_restores_the_heap_end() {
    let mut k = running_kernel();
    let start = k.tasks[0].program_brk;
    assert_eq!(sys_sbrk(&mut k, 5000), start as isize);
    assert_eq!(sys_sbrk(&mut k, -5000), (start + 5000) as isize);
    assert_eq!(k.tasks[0].program_brk, start);
    assert_eq!(k.tasks[0].memory_set.mapped, vec![true, true, true, true, false, false, false, false]);
}

#[test]
fn write_outside_the_task_memory_fails() {
    let mut k = running_kernel();
    // page 4 is not mapped; a buffer running into it, or past the end
    assert_eq!(sys_write(&mut k, 1, 4 * PAGE - 5, 10), -1);
    assert_eq!(sys_write(&mut k, 1, PAGES * PAGE - 2, 10), -1);
    assert_eq!(syscall(&mut k, SYSCALL_WRITE, [1, 5 * PAGE, 10], 1), -1);
    assert!(k.console.is_empty());
}

#[test]
fn fork_reuses_the_pid_of_a_reaped_child() {
    let mut k = running_kernel();
    assert_eq!(sys_fork(&mut k), 1);
    assert_eq!(sys_fork(&mut k), 2);
    suspend_current_and_run_next(&mut k);
    assert_eq!(run_tasks_step(&mut k, 20), Some(1));
    sys_exit(&mut k, 5);
    assert_eq!(run_tasks_step(&mut k, 30), Some(2));
    suspend_current_and_run_next(&mut k);
    assert_eq!(run_tasks_step(&mut k, 40), Some(0));
    assert_eq!(sys_waitpid(&mut k, 1, 200), 1);
    assert_eq!(k.free_pids, vec![1]);
    // reaped once only
    assert_eq!(sys_waitpid(&mut k, 1, 200), -1);
    assert_eq!(sys_fork(&mut k), 1);
    assert!(k.free_pids.is_empty());
    assert_eq!(k.tasks.len(), 3);
    assert_eq!(k.tasks[1].task_status, TaskStatus::Ready);
    assert_eq!(k.tasks[1].parent, Some(0));
    assert_eq!(k.tasks[0].children, vec![2, 1]);
    assert_eq!(sys_fork(&mut k), 3);
}
