use rcgos::user::coroutine::{Runtime, State, Task, TaskContext, DEFAULT_STACK_SIZE, MAX_TASKS};

#[test]
fn runtime_starts_with_the_base_task_running() {
    let r = Runtime::new();
    assert_eq!(r.tasks.len(), MAX_TASKS);
    assert_eq!(r.current, 0);
    assert_eq!(r.tasks[0].state, State::Running);
    for i in 1..MAX_TASKS {
        assert_eq!(r.tasks[i].state, State::Available);
        assert_eq!(r.tasks[i].id, i);
        assert_eq!(r.tasks[i].stack.len(), DEFAULT_STACK_SIZE);
    }
}

#[test]
fn task_new_is_available_and_zeroed() {
    let t = Task::new(3);
    assert_eq!(t.id, 3);
    assert_eq!(t.state, State::Available);
    assert_eq!(t.ctx, TaskContext::default());
}

#[test]
fn spawn_prepares_the_first_free_slot() {
    let mut r = Runtime::new();
    let (id, base) = r.spawn(0x1000, 0x2000);
    assert_eq!(id, 1);
    assert_eq!(base, r.tasks[1].stack.as_ptr() as u64);
    assert_eq!(r.tasks[1].state, State::Ready);
    assert_eq!(r.tasks[1].ctx.x1, 0x2000);
    assert_eq!(r.tasks[1].ctx.nx1, 0x1000);
    assert_eq!(r.tasks[1].ctx.x2 & 7, 0);
    let top = r.tasks[1].stack.as_ptr() as u64 + DEFAULT_STACK_SIZE as u64;
    assert_eq!(r.tasks[1].ctx.x2, (top & !7) - 32);
    assert_eq!(r.spawn(0x1100, 0x2000).0, 2);
    assert!(r.tasks[0].stack.iter().all(|b| *b == 0));
}

#[test]
fn yield_without_ready_tasks_does_nothing() {
    let mut r = Runtime::new();
    assert_eq!(r.t_yield(), None);
    assert_eq!(r.current, 0);
    assert_eq!(r.tasks[0].state, State::Running);
}

#[test]
fn yield_is_round_robin() {
    let mut r = Runtime::new();
    r.spawn(1, 9);
    r.spawn(2, 9);
    assert_eq!(r.t_yield(), Some((0, 1)));
    assert_eq!(r.tasks[0].state, State::Ready);
    assert_eq!(r.tasks[1].state, State::Running);
    assert_eq!(r.t_yield(), Some((1, 2)));
    assert_eq!(r.t_yield(), Some((2, 0)));
    assert_eq!(r.current, 0);
}

#[test]
fn return_frees_the_slot_and_moves_on() {
    let mut r = Runtime::new();
    r.spawn(1, 9);
    assert_eq!(r.t_yield(), Some((0, 1)));
    assert_eq!(r.t_return(), Some((1, 0)));
    assert_eq!(r.tasks[1].state, State::Available);
    assert_eq!(r.current, 0);
    // the base task does not return
    assert_eq!(r.t_return(), None);
    assert_eq!(r.tasks[0].state, State::Running);
}
