//! A stackful coroutine runtime with round-robin scheduling.
use vstd::prelude::*;

verus! {

/// Bytes of stack of every coroutine.
pub const DEFAULT_STACK_SIZE: usize = 4096;
/// Number of coroutine slots, the base one included.
pub const MAX_TASKS: usize = 5;

/// Callee-saved registers of a coroutine, and the address to resume at.
#[derive(Clone, Copy, PartialEq, Eq, Structural, Debug)]
pub struct TaskContext {
    pub x1: u64,
    pub x2: u64,
    pub x8: u64,
    pub x9: u64,
    pub x18: u64,
    pub x19: u64,
    pub x20: u64,
    pub x21: u64,
    pub x22: u64,
    pub x23: u64,
    pub x24: u64,
    pub x25: u64,
    pub x26: u64,
    pub x27: u64,
    pub nx1: u64,
}

/// The context with every register zero.
pub open spec fn zero_ctx() -> TaskContext {
    TaskContext {
        x1: 0,
        x2: 0,
        x8: 0,
        x9: 0,
        x18: 0,
        x19: 0,
        x20: 0,
        x21: 0,
        x22: 0,
        x23: 0,
        x24: 0,
        x25: 0,
        x26: 0,
        x27: 0,
        nx1: 0,
    }
}

impl Default for TaskContext {
    fn default() -> (r: Self)
        ensures
            r == zero_ctx(),
    {
        TaskContext {
            x1: 0,
            x2: 0,
            x8: 0,
            x9: 0,
            x18: 0,
            x19: 0,
            x20: 0,
            x21: 0,
            x22: 0,
            x23: 0,
            x24: 0,
            x25: 0,
            x26: 0,
            x27: 0,
            nx1: 0,
        }
    }
}

/// State of a coroutine slot.
#[derive(Clone, Copy, PartialEq, Eq, Structural, Debug)]
pub enum State {
    Available,
    Running,
    Ready,
}

/// A coroutine slot: its id, its stack, its saved context, its state.
pub struct Task {
    pub id: usize,
    pub stack: Vec<u8>,
    pub ctx: TaskContext,
    pub state: State,
}

impl Task {
    /// A free slot `id` with a zeroed stack and context.
    pub fn new(id: usize) -> (r: Self)
        ensures
            r.id == id,
            r.stack@ == Seq::new(DEFAULT_STACK_SIZE as nat, |i: int| 0u8),
            r.ctx == zero_ctx(),
            r.state == State::Available,
    {
        let stack = vec![0u8; DEFAULT_STACK_SIZE];
        assert(stack@ =~= Seq::new(DEFAULT_STACK_SIZE as nat, |i: int| 0u8));
        Task { id, stack, ctx: TaskContext::default(), state: State::Available }
    }
}

/// The runtime: its coroutine slots and the one running.
pub struct Runtime {
    pub tasks: Vec<Task>,
    pub current: usize,
}

/// The slot `k` steps after `cur` in a ring of `n` slots.
pub open spec fn ring_pos(cur: int, k: int, n: int) -> int {
    if cur + k < n {
        cur + k
    } else {
        cur + k - n
    }
}

/// The first slot found Ready when walking from `cur` round the ring
/// (`cur` itself first) is `k` steps away.
pub open spec fn first_ready_at(tasks: Seq<Task>, cur: int, k: int) -> bool {
    let n = tasks.len() as int;
    &&& 0 <= k < n
    &&& tasks[ring_pos(cur, k, n)].state == State::Ready
    &&& forall|j: int| 0 <= j < k ==> #[trigger] tasks[ring_pos(cur, j, n)].state != State::Ready
}

/// Address of the first byte of `stack`. Nothing is claimed of its value.
#[verifier::external_body]
fn stack_address(stack: &mut Vec<u8>) -> (r: u64)
    ensures
        final(stack)@ == old(stack)@,
{
    stack.as_mut_ptr() as u64
}

/// The round-robin switch from slot `cur` of `t`, giving slots `ft`, current
/// slot `fc` and result `r` (see `Runtime::t_yield`).
pub open spec fn yield_spec(t: Seq<Task>, cur: usize, ft: Seq<Task>, fc: usize, r: Option<(usize, usize)>) -> bool {
    let n = t.len() as int;
    let c = cur as int;
    let t1 = if t[c].state != State::Available {
        t.update(c, Task { state: State::Ready, ..t[c] })
    } else {
        t
    };
    &&& (r is None <==> forall|k: int| 0 <= k < n ==> #[trigger] t[ring_pos(c, k, n)].state != State::Ready)
    &&& (r is None ==> ft == t && fc == cur)
    &&& (r matches Some((o, p)) ==> {
        &&& o == cur
        &&& exists|k: int| #[trigger] first_ready_at(t, c, k) && p == ring_pos(c, k, n)
        &&& ft == t1.update(p as int, Task { state: State::Running, ..t1[p as int] })
        &&& fc == p
    })
}

/// The stack pointer of a coroutine whose stack starts at `base` and has
/// `size` bytes: 32 bytes below the 8-byte-aligned top (addresses wrap).
#[verifier::opaque]
pub open spec fn stack_pointer_spec(base: u64, size: u64) -> u64 {
    let end: u64 = if base + size > u64::MAX { (base + size - 0x1_0000_0000_0000_0000) as u64 } else { (base + size) as u64 };
    let top: u64 = end & !7u64;
    if top >= 32 { (top - 32) as u64 } else { (top + 0x1_0000_0000_0000_0000 - 32) as u64 }
}

/// The stack pointer of a coroutine whose stack starts at `base` and has
/// `size` bytes.
fn initial_stack_pointer(base: u64, size: u64) -> (r: u64)
    ensures
        r == stack_pointer_spec(base, size),
        r & 7 == 0,
{
    reveal(stack_pointer_spec);
    let end = base.wrapping_add(size);
    let top = end & !7u64;
    assert(top & 7 == 0) by (bit_vector)
        requires top == end & !7u64;
    let sp = top.wrapping_sub(32);
    assert(sp & 7 == 0) by (bit_vector)
        requires
            top & 7 == 0,
            sp == (if top >= 32 { (top - 32) as u64 } else { (top + 0x1_0000_0000_0000_0000 - 32) as u64 }),
    ;
    sp
}

impl Runtime {
    /// There is a slot and the current one exists.
    pub open spec fn wf(&self) -> bool {
        0 < self.tasks.len() && self.current < self.tasks.len()
    }

    /// The base coroutine (slot 0, Running) and free slots 1 to 4.
    pub fn new() -> (r: Self)
        ensures
            r.wf(),
            r.current == 0,
            r.tasks.len() == MAX_TASKS,
            r.tasks[0].state == State::Running,
            forall|i: int| 1 <= i < MAX_TASKS ==> #[trigger] r.tasks[i].state == State::Available,
            forall|i: int| 0 <= i < MAX_TASKS ==> #[trigger] r.tasks[i].id == i,
            forall|i: int| 0 <= i < MAX_TASKS ==> (#[trigger] r.tasks[i]).ctx == zero_ctx()
                && r.tasks[i].stack@ == Seq::new(DEFAULT_STACK_SIZE as nat, |j: int| 0u8),
    {
        let mut base_task = Task::new(0);
        base_task.state = State::Running;
        let mut tasks: Vec<Task> = Vec::new();
        tasks.push(base_task);
        let mut i: usize = 1;
        while i < MAX_TASKS
            invariant
                1 <= i <= MAX_TASKS,
                tasks.len() == i,
                tasks[0].state == State::Running,
                forall|j: int| 1 <= j < i ==> #[trigger] tasks[j].state == State::Available,
                forall|j: int| 0 <= j < i ==> #[trigger] tasks[j].id == j,
                forall|j: int| 0 <= j < i ==> (#[trigger] tasks[j]).ctx == zero_ctx()
                    && tasks[j].stack@ == Seq::new(DEFAULT_STACK_SIZE as nat, |k: int| 0u8),
            decreases MAX_TASKS - i,
        {
            tasks.push(Task::new(i));
            i = i + 1;
        }
        Runtime { tasks, current: 0 }
    }

    /// Round-robin scheduling: walks from the current slot round the ring to
    /// the first Ready one; if there is none, `None` and nothing changes.
    /// Otherwise the current slot becomes Ready (unless it is Available), the
    /// one found becomes Running and current; returns `(old, new)` slots, the
    /// contexts that the switch saves and restores.
    pub fn t_yield(&mut self) -> (r: Option<(usize, usize)>)
        requires
            old(self).wf(),
        ensures
            final(self).wf(),
            yield_spec(old(self).tasks@, old(self).current, final(self).tasks@, final(self).current, r),
    {
        let n = self.tasks.len();
        let cur = self.current;
        let mut pos = self.current;
        let ghost mut k: int = 0;
        while self.tasks[pos].state != State::Ready
            invariant
                self.wf(),
                n == self.tasks.len(),
                cur == self.current,
                self.tasks@ == old(self).tasks@,
                self.current == old(self).current,
                0 <= k < n,
                pos == ring_pos(cur as int, k, n as int),
                forall|j: int| 0 <= j < k ==> #[trigger] self.tasks[ring_pos(cur as int, j, n as int)].state != State::Ready,
            decreases n - k,
        {
            pos = pos + 1;
            if pos == n {
                pos = 0;
            }
            proof {
                k = k + 1;
            }
            if pos == cur {
                proof {
                    assert(k == n);
                    assert forall|kk: int| 0 <= kk < n implies #[trigger] old(self).tasks[ring_pos(cur as int, kk, n as int)].state != State::Ready by {
                        assert(self.tasks[ring_pos(cur as int, kk, n as int)].state != State::Ready);
                    }
                }
                return None;
            }
            assert(pos == ring_pos(cur as int, k, n as int));
        }
        assert(first_ready_at(old(self).tasks@, cur as int, k));
        if self.tasks[cur].state != State::Available {
            self.tasks[cur].state = State::Ready;
        }
        self.tasks[pos].state = State::Running;
        self.current = pos;
        Some((cur, pos))
    }

    /// The current coroutine finishes: unless it is the base one, its slot
    /// becomes Available and the runtime yields (see `t_yield`). Returns the
    /// switch to make, if any.
    pub fn t_return(&mut self) -> (r: Option<(usize, usize)>)
        requires
            old(self).wf(),
        ensures
            final(self).wf(),
            old(self).current == 0 ==> r is None && final(self).tasks@ == old(self).tasks@ && final(self).current == 0,
            old(self).current != 0 ==> yield_spec(
                old(self).tasks@.update(
                    old(self).current as int,
                    Task { state: State::Available, ..old(self).tasks[old(self).current as int] },
                ),
                old(self).current,
                final(self).tasks@,
                final(self).current,
                r,
            ),
    {
        if self.current != 0 {
            let cur = self.current;
            self.tasks[cur].state = State::Available;
            assert(self.tasks@ =~= old(self).tasks@.update(
                cur as int,
                Task { state: State::Available, ..old(self).tasks[cur as int] },
            ));
            self.t_yield()
        } else {
            None
        }
    }

    /// Makes slot `i` Ready to run the function at `entry`, returning into
    /// `guard`, on its own stack; returns the stack's address.
    fn start_slot(&mut self, i: usize, entry: u64, guard: u64) -> (base: u64)
        requires
            i < old(self).tasks.len(),
        ensures
            final(self).tasks@ == old(self).tasks@.update(
                i as int,
                Task {
                    state: State::Ready,
                    ctx: TaskContext {
                        x1: guard,
                        nx1: entry,
                        x2: stack_pointer_spec(base, old(self).tasks[i as int].stack@.len() as u64),
                        ..old(self).tasks[i as int].ctx
                    },
                    stack: final(self).tasks[i as int].stack,
                    ..old(self).tasks[i as int]
                },
            ),
            final(self).tasks[i as int].stack@ == old(self).tasks[i as int].stack@,
            final(self).current == old(self).current,
    {
        let size = self.tasks[i].stack.len();
        let base = stack_address(&mut self.tasks[i].stack);
        let sp = initial_stack_pointer(base, size as u64);
        let mut ctx = self.tasks[i].ctx;
        ctx.x1 = guard;
        ctx.nx1 = entry;
        ctx.x2 = sp;
        self.tasks[i].ctx = ctx;
        self.tasks[i].state = State::Ready;
        assert(self.tasks@ =~= old(self).tasks@.update(
            i as int,
            Task {
                state: State::Ready,
                ctx: TaskContext {
                    x1: guard,
                    nx1: entry,
                    x2: stack_pointer_spec(base, old(self).tasks[i as int].stack@.len() as u64),
                    ..old(self).tasks[i as int].ctx
                },
                stack: self.tasks[i as int].stack,
                ..old(self).tasks[i as int]
            },
        ));
        base
    }

    /// Prepares the first Available slot to run the function at `entry`
    /// (returning into the function at `guard` when it ends): its stack
    /// pointer goes 32 bytes below the 8-byte-aligned top of its stack, and
    /// it becomes Ready. Returns the slot's id and the address of its stack.
    #[verifier::rlimit(30)]
    pub fn spawn(&mut self, entry: u64, guard: u64) -> (r: (usize, u64))
        requires
            old(self).wf(),
            exists|i: int| 0 <= i < old(self).tasks.len() && #[trigger] old(self).tasks[i].state == State::Available,
        ensures
            final(self).wf(),
            final(self).current == old(self).current,
            final(self).tasks.len() == old(self).tasks.len(),
            exists|i: int| {
                &&& 0 <= i < old(self).tasks.len()
                &&& #[trigger] old(self).tasks[i].state == State::Available
                &&& forall|j: int| 0 <= j < i ==> #[trigger] old(self).tasks[j].state != State::Available
                &&& r.0 == old(self).tasks[i].id
                &&& final(self).tasks[i].state == State::Ready
                &&& final(self).tasks[i].id == old(self).tasks[i].id
                &&& final(self).tasks[i].stack@ == old(self).tasks[i].stack@
                &&& final(self).tasks[i].ctx == (TaskContext {
                    x1: guard,
                    nx1: entry,
                    x2: final(self).tasks[i].ctx.x2,
                    ..old(self).tasks[i].ctx
                })
                &&& final(self).tasks[i].ctx.x2 == stack_pointer_spec(r.1, old(self).tasks[i].stack@.len() as u64)
                &&& forall|j: int| 0 <= j < old(self).tasks.len() && j != i ==> #[trigger] final(self).tasks[j]
                    == old(self).tasks[j]
            },
    {
        let n = self.tasks.len();
        let mut i: usize = 0;
        while self.tasks[i].state != State::Available
            invariant
                n == self.tasks.len(),
                i < n,
                self.tasks@ == old(self).tasks@,
                exists|j: int| i <= j < n && #[trigger] self.tasks[j].state == State::Available,
                forall|j: int| 0 <= j < i ==> #[trigger] self.tasks[j].state != State::Available,
            decreases n - i,
        {
            i = i + 1;
        }
        let base = self.start_slot(i, entry, guard);
        proof {
            assert forall|j: int| 0 <= j < n && j != i implies #[trigger] self.tasks[j] == old(self).tasks[j] by {}
        }
        (self.tasks[i].id, base)
    }
}

} // verus!
