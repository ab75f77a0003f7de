//! The ready queue (FIFO scheduler).
use vstd::prelude::*;
use std::collections::VecDeque;

verus! {

/// The ready queue: pids of the tasks waiting to run, oldest first.
pub struct TaskManager {
    ready_queue: VecDeque<usize>,
}

impl View for TaskManager {
    type V = Seq<usize>;

    closed spec fn view(&self) -> Seq<usize> {
        self.ready_queue@
    }
}

/// Index of the first occurrence of `x` in `s`, if any.
pub open spec fn first_index(s: Seq<usize>, x: usize) -> Option<int> {
    if exists|i: int| 0 <= i < s.len() && s[i] == x {
        Some(choose|i: int| 0 <= i < s.len() && s[i] == x && forall|j: int| 0 <= j < i ==> s[j] != x)
    } else {
        None
    }
}

impl TaskManager {
    /// An empty queue.
    pub fn new() -> (r: Self)
        ensures
            r@ == Seq::<usize>::empty(),
    {
        TaskManager { ready_queue: VecDeque::new() }
    }

    /// Appends `task` at the back.
    pub fn add(&mut self, task: usize)
        ensures
            final(self)@ == old(self)@.push(task),
    {
        self.ready_queue.push_back(task);
    }

    /// Takes the task at the front; `None` when the queue is empty.
    pub fn fetch(&mut self) -> (r: Option<usize>)
        ensures
            old(self)@.len() == 0 ==> r is None && final(self)@ == old(self)@,
            old(self)@.len() > 0 ==> r == Some(old(self)@[0]) && final(self)@ == old(self)@.drop_first(),
    {
        self.ready_queue.pop_front()
    }

    /// Number of waiting tasks.
    pub fn len(&self) -> (r: usize)
        ensures
            r == self@.len(),
    {
        self.ready_queue.len()
    }

    /// Whether `task` waits in the queue.
    pub fn find(&self, task: usize) -> (r: Option<usize>)
        ensures
            r is Some <==> self@.contains(task),
            r matches Some(t) ==> t == task,
    {
        let n = self.ready_queue.len();
        let mut i: usize = 0;
        while i < n
            invariant
                n == self@.len(),
                i <= n,
                forall|j: int| 0 <= j < i ==> self@[j] != task,
            decreases n - i,
        {
            if self.ready_queue[i] == task {
                return Some(task);
            }
            i = i + 1;
        }
        None
    }

    /// Removes the first occurrence of `task`, if any.
    pub fn remove(&mut self, task: usize)
        ensures
            !old(self)@.contains(task) ==> final(self)@ == old(self)@,
            first_index(old(self)@, task) matches Some(i) ==> final(self)@ == old(self)@.remove(i),
    {
        let n = self.ready_queue.len();
        let mut i: usize = 0;
        while i < n
            invariant
                n == self@.len(),
                self@ == old(self)@,
                i <= n,
                forall|j: int| 0 <= j < i ==> self@[j] != task,
            decreases n - i,
        {
            if self.ready_queue[i] == task {
                let ghost s = self@;
                proof {
                    assert(first_index(s, task) == Some(i as int)) by {
                        assert(s[i as int] == task);
                        let k = choose|k: int| 0 <= k < s.len() && s[k] == task && forall|j: int| 0 <= j < k ==> s[j] != task;
                        if k < i { assert(s[k] != task); }
                        if k > i { assert(s[i as int] != task); }
                    }
                }
                self.ready_queue.remove(i);
                return;
            }
            i = i + 1;
        }
    }
}

} // verus!

verus! {

/// The ready queue is first in, first out: after tasks `a` then `b` join a
/// queue `q`, fetching `q.len()` tasks empties the old queue and leaves
/// `a` before `b`.
pub proof fn lemma_ready_queue_fifo(q: Seq<usize>, a: usize, b: usize)
    ensures
        q.push(a).push(b).subrange(0, q.len() as int) == q,
        q.push(a).push(b).skip(q.len() as int) == seq![a, b],
{
    assert(q.push(a).push(b).subrange(0, q.len() as int) =~= q);
    assert(q.push(a).push(b).skip(q.len() as int) =~= seq![a, b]);
}

} // verus!

verus! {

use crate::task::Kernel;

/// Makes task `task` ready: appends it to the ready queue and enters it in
/// the pid table.
pub fn add_task(k: &mut Kernel, task: usize)
    ensures
        final(k).task_manager@ == old(k).task_manager@.push(task),
        final(k).pid2tcb@ == old(k).pid2tcb@.insert(task, task),
        final(k).same_except_tables(old(k)),
{
    broadcast use vstd::std_specs::btree::group_btree_axioms;
    k.pid2tcb.insert(task, task);
    k.task_manager.add(task);
}

/// Takes the task at the front of the ready queue.
pub fn fetch_task(k: &mut Kernel) -> (r: Option<usize>)
    ensures
        old(k).task_manager@.len() == 0 ==> r is None && final(k).task_manager@ == old(k).task_manager@,
        old(k).task_manager@.len() > 0 ==> r == Some(old(k).task_manager@[0])
            && final(k).task_manager@ == old(k).task_manager@.drop_first(),
        final(k).pid2tcb == old(k).pid2tcb,
        final(k).same_except_tables(old(k)),
{
    k.task_manager.fetch()
}

/// The task with pid `pid`, if it is in the pid table.
pub fn pid2task(k: &Kernel, pid: usize) -> (r: Option<usize>)
    requires
        k.wf_pid2tcb(),
    ensures
        r == (if k.pid2tcb@.contains_key(pid) { Some(pid) } else { None::<usize> }),
{
    broadcast use vstd::std_specs::btree::group_btree_axioms;
    match k.pid2tcb.get(&pid) {
        Some(t) => Some(*t),
        None => None,
    }
}

/// Removes pid `pid` from the pid table, where it must be.
pub fn remove_from_pid2task(k: &mut Kernel, pid: usize)
    requires
        old(k).pid2tcb@.contains_key(pid),
    ensures
        final(k).pid2tcb@ == old(k).pid2tcb@.remove(pid),
        final(k).task_manager@ == old(k).task_manager@,
        final(k).same_except_tables(old(k)),
{
    broadcast use vstd::std_specs::btree::group_btree_axioms;
    k.pid2tcb.remove(&pid);
}

/// The task with pid `pid`, if it waits in the ready queue.
pub fn find_task_in_ready_queue(k: &Kernel, pid: usize) -> (r: Option<usize>)
    ensures
        r is Some <==> k.task_manager@.contains(pid),
        r matches Some(t) ==> t == pid,
{
    k.task_manager.find(pid)
}

} // verus!
