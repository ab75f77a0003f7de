use rcgos::fs::App;
use rcgos::mm::UserMemory;
use rcgos::task::processor::{current_task, run_tasks_step};
use rcgos::task::{add_initproc, Kernel, TaskStatus, INITPROC_NAME};
use rcgos::trap::{trap_handler, TrapCause};

fn running_kernel() -> Kernel {
    let mut memory = UserMemory::new(3, 2);
    memory.set_mapped(0, true);
    let apps = vec![App { name: INITPROC_NAME.to_vec(), memory, entry: 0x40, user_sp: 0x800, heap_bottom: 0x1000 }];
    let mut k = Kernel::new(apps, 1, 2, 3, 0);
    add_initproc(&mut k);
    // run the child (pid 1) so that its exit does not halt the machine
    assert_eq!(run_tasks_step(&mut k, 1), Some(0));
    assert_eq!(rcgos::syscall::process::sys_fork(&mut k), 1);
    rcgos::task::suspend_current_and_run_next(&mut k);
    assert_eq!(run_tasks_step(&mut k, 2), Some(1));
    k
}

#[test]
fn ecall_runs_the_syscall_and_stores_the_result() {
    let mut k = running_kernel();
    k.tasks[1].trap_cx.x[17] = 411; // get_task_id
    let sepc = k.tasks[1].trap_cx.sepc;
    assert_eq!(trap_handler(&mut k, TrapCause::UserEnvCall, 5), None);
    assert_eq!(k.tasks[1].trap_cx.sepc, sepc + 4);
    assert_eq!(k.tasks[1].trap_cx.x[10], 1);
    assert_eq!(current_task(&k), Some(1));
    assert_eq!(k.tasks[1].syscall_times[411], 1);
}

#[test]
fn ecall_exit_ends_the_task() {
    let mut k = running_kernel();
    k.tasks[1].trap_cx.x[17] = 93;
    k.tasks[1].trap_cx.x[10] = 4;
    assert_eq!(trap_handler(&mut k, TrapCause::UserEnvCall, 5), None);
    assert_eq!(k.tasks[1].task_status, TaskStatus::Exited);
    assert_eq!(k.tasks[1].exit_code, 4);
    assert_eq!(current_task(&k), None);
}

#[test]
fn illegal_instruction_kills_the_task() {
    let mut k = running_kernel();
    assert_eq!(trap_handler(&mut k, TrapCause::IllegalInstruction, 5), Some("Illegal Instruction, SIGILL=4"));
    assert_eq!(k.tasks[1].task_status, TaskStatus::Exited);
    assert_eq!(k.tasks[1].exit_code, -4);
}

#[test]
fn page_fault_kills_the_task() {
    let mut k = running_kernel();
    assert_eq!(trap_handler(&mut k, TrapCause::LoadPageFault, 5), Some("Segmentation Fault, SIGSEGV=11"));
    assert_eq!(k.tasks[1].exit_code, -11);
}

#[test]
fn timer_interrupt_preempts() {
    let mut k = running_kernel();
    assert_eq!(trap_handler(&mut k, TrapCause::SupervisorTimer, 5), None);
    assert_eq!(current_task(&k), None);
    assert_eq!(k.tasks[1].task_status, TaskStatus::Ready);
    assert_eq!(run_tasks_step(&mut k, 6), Some(0));
}

#[test]
fn ecall_yield_requeues_with_zero_result() {
    let mut k = running_kernel();
    k.tasks[1].trap_cx.x[17] = 124;
    k.tasks[1].trap_cx.x[10] = 9;
    assert_eq!(trap_handler(&mut k, TrapCause::UserEnvCall, 5), None);
    assert_eq!(k.tasks[1].trap_cx.x[10], 0);
    assert_eq!(k.tasks[1].task_status, TaskStatus::Ready);
}
