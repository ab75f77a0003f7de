use rcgos::sync::UPSafeCell;
use rcgos::task::signal::{SignalFlags, SIGILL, SIGINT, SIGSEGV};
use rcgos::task::task::{status_code, TaskStatus};
use rcgos::task::TaskContext;
use rcgos::trap::TrapContext;

#[test]
fn up_safe_cell_hands_out_its_contents() {
    let mut c = UPSafeCell::new(5u32);
    *c.exclusive_access() += 1;
    assert_eq!(*c.exclusive_access(), 6);
}

#[test]
fn task_contexts() {
    let z = TaskContext::zero_init();
    assert_eq!((z.ra, z.sp, z.s), (0, 0, [0; 12]));
    let t = TaskContext::goto_trap_return(0x9000, 0x8000_0000);
    assert_eq!((t.ra, t.sp, t.s), (0x8000_0000, 0x9000, [0; 12]));
}

#[test]
fn app_init_context_enters_user_mode() {
    let cx = TrapContext::app_init_context(0x1000, 0x3000, 11, 22, 33, 0x122);
    assert_eq!(cx.x[2], 0x3000);
    assert_eq!(cx.x.iter().filter(|r| **r != 0).count(), 1);
    assert_eq!(cx.sepc, 0x1000);
    assert_eq!((cx.kernel_satp, cx.kernel_sp, cx.trap_handler), (11, 22, 33));
    assert_eq!(cx.sstatus & 0x100, 0);
    assert_eq!(cx.sstatus, 0x022);
    // bits outside the register's legal ones are dropped, the others kept
    let cx3 = TrapContext::app_init_context(0, 0, 0, 0, 0, 0x1000_0000_0000_1122 | 0x6000);
    assert_eq!(cx3.sstatus, 0x6022);
    let mut cx2 = cx;
    cx2.set_sp(7);
    assert_eq!(cx2.x[2], 7);
}

#[test]
fn signals_map_to_errors() {
    let mut s = SignalFlags::empty();
    assert_eq!(s.check_error(), None);
    s.insert(SignalFlags::from_bits(SIGSEGV));
    assert_eq!(s.check_error(), Some((-11, "Segmentation Fault, SIGSEGV=11")));
    s.insert(SignalFlags::from_bits(SIGILL));
    assert_eq!(s.check_error(), Some((-4, "Illegal Instruction, SIGILL=4")));
    assert!(s.contains(SignalFlags::from_bits(SIGSEGV)));
    assert!(!s.contains(SignalFlags::from_bits(SIGINT)));
    assert_eq!(SignalFlags::from_bits(SIGINT).check_error(), Some((-2, "Killed, SIGINT=2")));
}

#[test]
fn status_codes_match_the_user_library() {
    assert_eq!(status_code(TaskStatus::UnInit), 0);
    assert_eq!(status_code(TaskStatus::Ready), 1);
    assert_eq!(status_code(TaskStatus::Running), 2);
    assert_eq!(status_code(TaskStatus::Exited), 3);
    assert_eq!(status_code(TaskStatus::Blocked), 4);
}
