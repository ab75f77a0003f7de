use rcgos::user::{SyscallInfo, TaskInfo, TaskStatus, MAX_SYSCALL_NUM, TASK_INFO_BYTES};

#[test]
fn new_task_info_is_empty() {
    let info = TaskInfo::new();
    assert_eq!(info.id, 0);
    assert_eq!(info.status, TaskStatus::UnInit);
    assert_eq!(info.time, 0);
    assert_eq!(info.call.len(), MAX_SYSCALL_NUM);
    for (i, c) in info.call.iter().enumerate() {
        assert_eq!(*c, SyscallInfo { id: i, times: 0 });
    }
}

#[test]
fn from_bytes_rejects_short_buffers_and_unknown_status() {
    assert!(TaskInfo::from_bytes(&[0u8; 100]).is_none());
    let mut b = vec![0u8; TASK_INFO_BYTES];
    b[8] = 4;
    assert!(TaskInfo::from_bytes(&b).is_none());
    b[8] = 3;
    b[0] = 7;
    b[16 + 16 * 2] = 2;
    b[16 + 16 * 2 + 8] = 9;
    b[8016] = 1;
    b[8017] = 1;
    let info = TaskInfo::from_bytes(&b).unwrap();
    assert_eq!(info.id, 7);
    assert_eq!(info.status, TaskStatus::Exited);
    assert_eq!(info.call[2], SyscallInfo { id: 2, times: 9 });
    assert_eq!(info.call[3], SyscallInfo { id: 0, times: 0 });
    assert_eq!(info.time, 257);
}
