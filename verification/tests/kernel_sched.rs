use rcgos::fs::App;
use rcgos::mm::UserMemory;
use rcgos::task::manager::{add_task, fetch_task, find_task_in_ready_queue, pid2task, remove_from_pid2task, TaskManager};
use rcgos::task::processor::{current_task, current_user_token, run_tasks_step, take_current_task, Processor};
use rcgos::task::{
    add_initproc, block_current_and_run_next, exit_current_and_run_next, get_task_snapshot, record_syscall_times,
    remove_inactive_task, shutdown_if_no_tasks, suspend_current_and_run_next, Kernel, TaskStatus, INITPROC_NAME,
};

const PAGES: usize = 4;

fn app(name: &[u8], ppn: usize, entry: usize) -> App {
    let mut memory = UserMemory::new(ppn, PAGES);
    memory.set_mapped(0, true);
    memory.set_mapped(1, true);
    App { name: name.to_vec(), memory, entry, user_sp: 0x2000, heap_bottom: 0x2000 }
}

fn boot() -> Kernel {
    let apps = vec![app(&INITPROC_NAME, 7, 0x100), app(b"hello", 9, 0x200)];
    let mut k = Kernel::new(apps, 0x80200, 0x1111, 0x2222, 0x122);
    add_initproc(&mut k);
    k
}

#[test]
fn task_manager_is_fifo() {
    let mut m = TaskManager::new();
    m.add(3);
    m.add(1);
    m.add(2);
    assert_eq!(m.len(), 3);
    assert_eq!(m.fetch(), Some(3));
    assert_eq!(m.fetch(), Some(1));
    m.add(5);
    assert_eq!(m.fetch(), Some(2));
    assert_eq!(m.fetch(), Some(5));
    assert_eq!(m.fetch(), None);
}

#[test]
fn task_manager_find_and_remove() {
    let mut m = TaskManager::new();
    m.add(4);
    m.add(6);
    m.add(4);
    assert_eq!(m.find(6), Some(6));
    assert_eq!(m.find(7), None);
    m.remove(4);
    assert_eq!(m.fetch(), Some(6));
    assert_eq!(m.fetch(), Some(4));
    assert_eq!(m.fetch(), None);
}

#[test]
fn processor_take_and_current() {
    let mut p = Processor::new();
    assert_eq!(p.current(), None);
    p.current = Some(2);
    assert_eq!(p.current(), Some(2));
    assert_eq!(p.take_current(), Some(2));
    assert_eq!(p.current(), None);
}

#[test]
fn initproc_is_created_once_and_ready() {
    let mut k = boot();
    assert_eq!(k.tasks.len(), 1);
    assert_eq!(k.tasks[0].task_status, TaskStatus::Ready);
    assert_eq!(k.tasks[0].trap_cx.sepc, 0x100);
    assert_eq!(k.tasks[0].trap_cx.x[2], 0x2000);
    assert_eq!(k.tasks[0].trap_cx.trap_handler, 0x1111);
    assert_eq!(k.tasks[0].task_cx.ra, 0x2222);
    assert_eq!(pid2task(&k, 0), Some(0));
    assert_eq!(find_task_in_ready_queue(&k, 0), Some(0));
    add_initproc(&mut k);
    assert_eq!(k.tasks.len(), 1);
    assert_eq!(k.task_manager.len(), 1);
}

#[test]
fn run_tasks_step_runs_the_queue_head() {
    let mut k = boot();
    assert_eq!(run_tasks_step(&mut k, 42), Some(0));
    assert_eq!(current_task(&k), Some(0));
    assert_eq!(k.tasks[0].task_status, TaskStatus::Running);
    assert_eq!(k.tasks[0].first_schedule_time, 42);
    assert_eq!(find_task_in_ready_queue(&k, 0), None);
    // a second run keeps the first schedule time
    suspend_current_and_run_next(&mut k);
    assert_eq!(run_tasks_step(&mut k, 99), Some(0));
    assert_eq!(k.tasks[0].first_schedule_time, 42);
}

#[test]
fn run_tasks_step_without_tasks_requests_shutdown() {
    let mut k = Kernel::new(Vec::new(), 1, 2, 3, 4);
    assert_eq!(run_tasks_step(&mut k, 5), None);
    assert_eq!(k.shutdown, Some(false));
}

#[test]
fn shutdown_if_no_tasks_requests_success() {
    let mut k = boot();
    shutdown_if_no_tasks(&mut k);
    assert_eq!(k.shutdown, Some(false));
}

#[test]
fn suspend_puts_current_at_the_back() {
    let mut k = boot();
    run_tasks_step(&mut k, 1);
    let child = rcgos::syscall::process::sys_fork(&mut k);
    assert_eq!(child, 1);
    let pid = suspend_current_and_run_next(&mut k);
    assert_eq!(pid, 0);
    assert_eq!(current_task(&k), None);
    assert_eq!(k.tasks[0].task_status, TaskStatus::Ready);
    assert_eq!(run_tasks_step(&mut k, 2), Some(1));
    assert_eq!(run_tasks_step_after_suspend(&mut k), Some(0));
}

fn run_tasks_step_after_suspend(k: &mut Kernel) -> Option<usize> {
    suspend_current_and_run_next(k);
    run_tasks_step(k, 3)
}

#[test]
fn block_leaves_the_queue_alone() {
    let mut k = boot();
    run_tasks_step(&mut k, 1);
    assert_eq!(block_current_and_run_next(&mut k), 0);
    assert_eq!(k.tasks[0].task_status, TaskStatus::Blocked);
    assert_eq!(k.task_manager.len(), 0);
    assert_eq!(current_task(&k), None);
}

#[test]
fn take_current_task_empties_the_processor() {
    let mut k = boot();
    run_tasks_step(&mut k, 1);
    assert_eq!(take_current_task(&mut k), Some(0));
    assert_eq!(current_task(&k), None);
}

#[test]
fn add_fetch_and_pid_table() {
    let mut k = boot();
    assert_eq!(fetch_task(&mut k), Some(0));
    assert_eq!(fetch_task(&mut k), None);
    add_task(&mut k, 0);
    assert_eq!(fetch_task(&mut k), Some(0));
    remove_from_pid2task(&mut k, 0);
    assert_eq!(pid2task(&k, 0), None);
}

#[test]
fn remove_inactive_task_drops_it_from_the_queue() {
    let mut k = boot();
    remove_inactive_task(&mut k, 0);
    assert_eq!(find_task_in_ready_queue(&k, 0), None);
}

#[test]
fn record_syscall_times_counts_the_current_task() {
    let mut k = boot();
    record_syscall_times(&mut k, 64);
    assert_eq!(k.tasks[0].syscall_times[64], 0);
    run_tasks_step(&mut k, 1);
    record_syscall_times(&mut k, 64);
    record_syscall_times(&mut k, 64);
    record_syscall_times(&mut k, 500);
    assert_eq!(k.tasks[0].syscall_times[64], 2);
    assert_eq!(k.tasks[0].syscall_times.iter().map(|t| *t as usize).sum::<usize>(), 2);
}

#[test]
fn snapshot_reports_status_counts_and_run_time() {
    let mut k = boot();
    run_tasks_step(&mut k, 100);
    record_syscall_times(&mut k, 410);
    let s = get_task_snapshot(&k, 0, 250).unwrap();
    assert_eq!(s.id, 0);
    assert_eq!(s.status, TaskStatus::Running);
    assert_eq!(s.syscall_times[410], 1);
    assert_eq!(s.time_ms, 150);
    assert!(get_task_snapshot(&k, 7, 250).is_none());
}

#[test]
fn snapshot_of_a_task_that_never_ran_has_zero_time() {
    let k = boot();
    let s = get_task_snapshot(&k, 0, 250).unwrap();
    assert_eq!(s.status, TaskStatus::Ready);
    assert_eq!(s.time_ms, 0);
}

#[test]
fn exit_of_initproc_requests_shutdown() {
    let mut k = boot();
    run_tasks_step(&mut k, 1);
    exit_current_and_run_next(&mut k, 3);
    assert_eq!(k.shutdown, Some(true));
    assert_eq!(k.console, b"[kernel] Idle process exit with exit_code 3 ...\n".to_vec());
    assert_eq!(k.tasks[0].task_status, TaskStatus::Exited);
    assert_eq!(k.tasks[0].exit_code, 3);
    let mut k2 = boot();
    run_tasks_step(&mut k2, 1);
    exit_current_and_run_next(&mut k2, -120);
    assert_eq!(k2.shutdown, Some(true));
    assert_eq!(k2.console, b"[kernel] Idle process exit with exit_code -120 ...\n".to_vec());
    let mut k3 = boot();
    run_tasks_step(&mut k3, 1);
    exit_current_and_run_next(&mut k3, 0);
    assert_eq!(k3.shutdown, Some(false));
    assert_eq!(k3.console, b"[kernel] Idle process exit with exit_code 0 ...\n".to_vec());
    let mut k4 = boot();
    run_tasks_step(&mut k4, 1);
    exit_current_and_run_next(&mut k4, i32::MIN);
    assert_eq!(k4.console, b"[kernel] Idle process exit with exit_code -2147483648 ...\n".to_vec());
}

#[test]
fn exit_hands_children_to_initproc() {
    let mut k = boot();
    run_tasks_step(&mut k, 1);
    assert_eq!(rcgos::syscall::process::sys_fork(&mut k), 1);
    suspend_current_and_run_next(&mut k);
    assert_eq!(run_tasks_step(&mut k, 2), Some(1));
    assert_eq!(rcgos::syscall::process::sys_fork(&mut k), 2);
    exit_current_and_run_next(&mut k, 7);
    assert_eq!(k.shutdown, None);
    assert_eq!(k.tasks[1].task_status, TaskStatus::Exited);
    assert_eq!(k.tasks[1].exit_code, 7);
    assert!(k.tasks[1].children.is_empty());
    assert!(k.tasks[1].memory_set.mapped.iter().all(|m| !*m));
    assert_eq!(k.tasks[2].parent, Some(0));
    assert_eq!(k.tasks[0].children, vec![1, 2]);
    assert_eq!(pid2task(&k, 1), None);
    assert_eq!(pid2task(&k, 2), Some(2));
}

#[test]
fn user_token_of_current_task() {
    let mut k = boot();
    run_tasks_step(&mut k, 1);
    assert_eq!(current_user_token(&k), (8usize << 60) | 7);
    assert_eq!(rcgos::mm::kernel_token(&k), (8usize << 60) | 0x80200);
}
