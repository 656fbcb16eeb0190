//! Fixed-storage cooperative kernel task scheduler.
//!
//! A task entry is a short function that returns a [`TaskAction`] at a
//! cooperative yield point.  The scheduler owns task state and wake-up
//! deadlines, picks ready tasks round robin, and gives each task a stack and
//! a saved CPU context.

pub mod context;
pub mod stack;

use vstd::prelude::*;

use context::TaskContext;
use stack::{TaskStack, TASK_STACK_SIZE};

verus! {

/// Number of task slots.
pub const MAX_TASKS: usize = 64;

/// The slot of a spawned task.
#[derive(Clone, Copy, Debug, PartialEq, Eq, Structural)]
pub struct TaskId(usize);

impl View for TaskId {
    type V = usize;

    closed spec fn view(&self) -> usize {
        self.0
    }
}

impl TaskId {
    pub fn index(self) -> (index: usize)
        ensures
            index == self@,
    {
        self.0
    }
}

#[derive(Clone, Copy, Debug, PartialEq, Eq, Structural)]
pub enum TaskState {
    Ready,
    Running,
    Sleeping { until: u64 },
    Finished,
}

#[derive(Clone, Copy, Debug, PartialEq, Eq, Structural)]
pub enum TaskAction {
    /// Return control to the scheduler and remain runnable.
    Yield,
    /// Sleep: stay off the run queue until the scheduler clock reaches this tick.
    SleepUntil(u64),
    /// Finish: the task never runs again.
    Exit,
}

#[derive(Clone, Copy, Debug, PartialEq, Eq, Structural)]
pub enum SchedulerError {
    NoTaskSlots,
    InvalidTask,
}

impl SchedulerError {
    /// The message under which the error is displayed.
    pub fn message(self) -> (message: &'static str)
        ensures
            self == SchedulerError::NoTaskSlots ==> message@ == "no task slots available"@,
            self == SchedulerError::InvalidTask ==> message@ == "invalid task identifier"@,
    {
        match self {
            SchedulerError::NoTaskSlots => "no task slots available",
            SchedulerError::InvalidTask => "invalid task identifier",
        }
    }
}

#[derive(Clone, Copy)]
struct Task<F> {
    entry: F,
    state: TaskState,
}

#[derive(Clone, Copy, Debug, PartialEq, Eq, Structural)]
pub struct SchedulerStats {
    pub task_count: usize,
    pub ready: usize,
    pub sleeping: usize,
    pub running: usize,
}

/// The state a task is left in by the action it returned at tick `now`:
/// a deadline that has already passed leaves it ready.
pub open spec fn state_after(action: TaskAction, now: u64) -> TaskState {
    match action {
        TaskAction::Yield => TaskState::Ready,
        TaskAction::SleepUntil(until) => if until <= now { TaskState::Ready } else { TaskState::Sleeping { until } },
        TaskAction::Exit => TaskState::Finished,
    }
}

/// A slot after waking at tick `now`: a task sleeping until at most `now` is ready.
pub open spec fn woken(slot: Option<TaskState>, now: u64) -> Option<TaskState> {
    match slot {
        Some(TaskState::Sleeping { until }) => if now >= until { Some(TaskState::Ready) } else { slot },
        _ => slot,
    }
}

pub open spec fn all_woken(slots: Seq<Option<TaskState>>, now: u64) -> Seq<Option<TaskState>> {
    slots.map_values(|slot: Option<TaskState>| woken(slot, now))
}

pub open spec fn is_ready(slot: Option<TaskState>) -> bool {
    slot == Some(TaskState::Ready)
}

/// The first ready slot met when walking the slots cyclically from `from + offset`.
pub open spec fn next_ready_from(slots: Seq<Option<TaskState>>, from: int, offset: int) -> Option<int>
    decreases MAX_TASKS - offset,
{
    if offset >= MAX_TASKS || offset < 0 {
        None
    } else if is_ready(slots[(from + offset) % (MAX_TASKS as int)]) {
        Some((from + offset) % (MAX_TASKS as int))
    } else {
        next_ready_from(slots, from, offset + 1)
    }
}

/// The first ready slot at or cyclically after `from`.
pub open spec fn next_ready(slots: Seq<Option<TaskState>>, from: int) -> Option<int> {
    next_ready_from(slots, from, 0)
}

/// The number of occupied slots of `slots` that satisfy `p`.
pub open spec fn count_slots(slots: Seq<Option<TaskState>>, p: spec_fn(TaskState) -> bool) -> int
    decreases slots.len(),
{
    if slots.len() == 0 {
        0
    } else {
        count_slots(slots.drop_last(), p) + match slots.last() {
            Some(state) => if p(state) { 1int } else { 0int },
            None => 0int,
        }
    }
}

/// A bounded, allocation-free cooperative scheduler over task entries of type `F`.
pub struct Scheduler<F: Fn() -> TaskAction + Copy> {
    tasks: [Option<Task<F>>; MAX_TASKS],
    stacks: [TaskStack; MAX_TASKS],
    contexts: [TaskContext; MAX_TASKS],
    next: usize,
}

impl<F: Fn() -> TaskAction + Copy> View for Scheduler<F> {
    type V = Seq<Option<TaskState>>;

    /// The state of every slot; `None` for a free slot.
    closed spec fn view(&self) -> Seq<Option<TaskState>> {
        self.tasks@.map_values(|slot: Option<Task<F>>| match slot {
            Some(task) => Some(task.state),
            None => None,
        })
    }
}

impl<F: Fn() -> TaskAction + Copy> Scheduler<F> {
    #[verifier::type_invariant]
    spec fn inv(self) -> bool {
        &&& self.next < MAX_TASKS
        &&& forall|i: int|
            0 <= i < MAX_TASKS && (#[trigger] self.tasks@[i]) is Some ==> self.tasks@[i].unwrap().entry.requires(())
    }

    /// The slot where the search for the next ready task starts.
    pub closed spec fn cursor(&self) -> int {
        self.next as int
    }

    /// The entry of the task in slot `i`.
    pub closed spec fn entry(&self, i: int) -> F {
        self.tasks@[i].unwrap().entry
    }

    /// The saved contexts of the slots.
    pub closed spec fn contexts(&self) -> Seq<TaskContext> {
        self.contexts@
    }

    /// The stacks of the slots.
    pub closed spec fn stacks(&self) -> Seq<TaskStack> {
        self.stacks@
    }

    /// A scheduler with every slot free.
    pub fn new() -> (scheduler: Scheduler<F>)
        ensures
            scheduler@ == Seq::new(MAX_TASKS as nat, |i: int| None::<TaskState>),
            stats_of(scheduler@) == (0int, 0int, 0int, 0int),
            scheduler.cursor() == 0,
            forall|i: int|
                0 <= i < MAX_TASKS ==> #[trigger] scheduler.contexts()[i] == (TaskContext {
                    stack_pointer: 0,
                    rbx: 0,
                    rbp: 0,
                    r12: 0,
                    r13: 0,
                    r14: 0,
                    r15: 0,
                }),
            forall|i: int| 0 <= i < MAX_TASKS ==> (#[trigger] scheduler.stacks()[i])@ == Seq::new(TASK_STACK_SIZE as nat, |k: int| 0u8),
    {
        let scheduler = Scheduler {
            tasks: [None; MAX_TASKS],
            stacks: [TaskStack::new(); MAX_TASKS],
            contexts: [TaskContext::new(); MAX_TASKS],
            next: 0,
        };
        assert(scheduler@ =~= Seq::new(MAX_TASKS as nat, |i: int| None::<TaskState>));
        proof { lemma_stats_empty(MAX_TASKS as nat); }
        scheduler
    }
}

proof fn lemma_next_ready_from(slots: Seq<Option<TaskState>>, from: int, offset: int)
    requires
        slots.len() == MAX_TASKS,
        0 <= from,
    ensures
        next_ready_from(slots, from, offset) matches Some(i) ==> 0 <= i < MAX_TASKS && is_ready(slots[i]),
    decreases MAX_TASKS - offset,
{
    if 0 <= offset < MAX_TASKS && !is_ready(slots[(from + offset) % (MAX_TASKS as int)]) {
        lemma_next_ready_from(slots, from, offset + 1);
    }
}

/// Whether `i` is the first free slot of `slots`.
pub open spec fn is_first_free(slots: Seq<Option<TaskState>>, i: int) -> bool {
    &&& 0 <= i < slots.len()
    &&& slots[i] is None
    &&& forall|j: int| 0 <= j < i ==> (#[trigger] slots[j]) is Some
}

/// Counts of the occupied slots: all of them, and the ready, sleeping and
/// running ones.
pub open spec fn stats_of(slots: Seq<Option<TaskState>>) -> (int, int, int, int)
    decreases slots.len(),
{
    if slots.len() == 0 {
        (0, 0, 0, 0)
    } else {
        let (all, ready, sleeping, running) = stats_of(slots.drop_last());
        match slots.last() {
            None => (all, ready, sleeping, running),
            Some(TaskState::Ready) => (all + 1, ready + 1, sleeping, running),
            Some(TaskState::Sleeping { .. }) => (all + 1, ready, sleeping + 1, running),
            Some(TaskState::Running) => (all + 1, ready, sleeping, running + 1),
            Some(TaskState::Finished) => (all + 1, ready, sleeping, running),
        }
    }
}

proof fn lemma_stats_bounded(slots: Seq<Option<TaskState>>)
    ensures
        0 <= stats_of(slots).0 <= slots.len(),
        0 <= stats_of(slots).1 <= stats_of(slots).0,
        0 <= stats_of(slots).2 <= stats_of(slots).0,
        0 <= stats_of(slots).3 <= stats_of(slots).0,
    decreases slots.len(),
{
    if slots.len() > 0 {
        lemma_stats_bounded(slots.drop_last());
    }
}

impl<F: Fn() -> TaskAction + Copy> Scheduler<F> {
    /// Adds a task in the ready state, in the first free slot.
    pub fn spawn(&mut self, entry: F) -> (result: Result<TaskId, SchedulerError>)
        requires
            entry.requires(()),
        ensures
            final(self).cursor() == old(self).cursor(),
            match result {
                Ok(id) => is_first_free(old(self)@, id@ as int)
                    && final(self)@ == old(self)@.update(id@ as int, Some(TaskState::Ready))
                    && final(self).entry(id@ as int) == entry
                    && (forall|i: int| 0 <= i < MAX_TASKS && i != id@ ==> #[trigger] final(self).entry(i) == old(self).entry(i))
                    && final(self).stacks() == old(self).stacks()
                    && final(self).contexts() == old(self).contexts().update(
                        id@ as int,
                        TaskContext { stack_pointer: final(self).contexts()[id@ as int].stack_pointer, ..old(self).contexts()[id@ as int] },
                    )
                    && final(self).contexts()[id@ as int].stack_pointer % 16 == 0
                    && stats_of(final(self)@).0 == stats_of(old(self)@).0 + 1
                    && (stats_of(old(self)@).3 == 0 ==> stats_of(final(self)@).3 == 0),
                Err(error) => error == SchedulerError::NoTaskSlots
                    && (forall|i: int| 0 <= i < MAX_TASKS ==> (#[trigger] old(self)@[i]) is Some)
                    && *final(self) == *old(self)
                    && final(self)@ == old(self)@
                    && final(self).contexts() == old(self).contexts()
                    && final(self).stacks() == old(self).stacks(),
            },
    {
        proof { use_type_invariant(&*self); }
        let mut index: usize = 0;
        while index < MAX_TASKS && self.tasks[index].is_some()
            invariant
                index <= MAX_TASKS,
                self == old(self),
                forall|j: int| 0 <= j < index ==> (#[trigger] self@[j]) is Some,
            decreases MAX_TASKS - index,
        {
            assert(self@[index as int] is Some);
            index += 1;
        }
        if index == MAX_TASKS {
            return Err(SchedulerError::NoTaskSlots);
        }
        assert(self@[index as int] is None);
        self.tasks[index] = Some(Task { entry, state: TaskState::Ready });
        let top = self.stacks[index].top();
        self.contexts[index].stack_pointer = top;
        assert(self@ =~= old(self)@.update(index as int, Some(TaskState::Ready)));
        proof {
            lemma_stats_update(old(self)@, index as int, Some(TaskState::Ready));
            lemma_stats_bounded_running(old(self)@, index as int);
        }
        assert(self.contexts@ =~= old(self).contexts@.update(
            index as int,
            TaskContext { stack_pointer: top, ..old(self).contexts@[index as int] },
        ));
        Ok(TaskId(index))
    }

    /// The state of a task.
    pub fn state(&self, task: TaskId) -> (state: Option<TaskState>)
        ensures
            state == (if task@ < MAX_TASKS { self@[task@ as int] } else { None }),
    {
        if task.0 >= MAX_TASKS {
            return None;
        }
        match self.tasks[task.0] {
            Some(entry) => Some(entry.state),
            None => None,
        }
    }

    /// The saved CPU context of a task.
    pub fn context(&self, task: TaskId) -> (context: Option<&TaskContext>)
        ensures
            context.is_some() == (task@ < MAX_TASKS && self@[task@ as int] is Some),
            context.is_some() ==> *context.unwrap() == self.contexts()[task@ as int],
    {
        if task.0 >= MAX_TASKS || self.tasks[task.0].is_none() {
            return None;
        }
        Some(&self.contexts[task.0])
    }

    /// The stack owned by a task.
    pub fn stack(&self, task: TaskId) -> (stack: Option<&TaskStack>)
        ensures
            stack.is_some() == (task@ < MAX_TASKS && self@[task@ as int] is Some),
            stack.is_some() ==> *stack.unwrap() == self.stacks()[task@ as int],
    {
        if task.0 >= MAX_TASKS || self.tasks[task.0].is_none() {
            return None;
        }
        Some(&self.stacks[task.0])
    }

    /// Wakes every task whose sleep deadline is at most `now`.
    pub fn wake_expired(&mut self, now: u64)
        ensures
            final(self)@ == all_woken(old(self)@, now),
            stats_of(final(self)@).0 == stats_of(old(self)@).0,
            stats_of(final(self)@).3 == stats_of(old(self)@).3,
            final(self).cursor() == old(self).cursor(),
            forall|i: int| 0 <= i < MAX_TASKS ==> #[trigger] final(self).entry(i) == old(self).entry(i),
            final(self).contexts() == old(self).contexts(),
            final(self).stacks() == old(self).stacks(),
    {
        proof { use_type_invariant(&*self); }
        let mut tasks = self.tasks;
        let ghost before = old(self)@;
        let mut index: usize = 0;
        while index < MAX_TASKS
            invariant
                index <= MAX_TASKS,
                before == old(self)@,
                before.len() == MAX_TASKS,
                forall|j: int| 0 <= j < MAX_TASKS ==> (#[trigger] tasks@[j]) is Some == old(self).tasks@[j] is Some,
                forall|j: int| 0 <= j < MAX_TASKS && tasks@[j] is Some ==> (#[trigger] tasks@[j]).unwrap().entry == old(self).tasks@[j].unwrap().entry,
                forall|j: int| 0 <= j < index && tasks@[j] is Some ==> (#[trigger] tasks@[j]).unwrap().state == woken(before[j], now).unwrap(),
                forall|j: int| index <= j < MAX_TASKS && tasks@[j] is Some ==> (#[trigger] tasks@[j]).unwrap().state == before[j].unwrap(),
            decreases MAX_TASKS - index,
        {
            if let Some(task) = tasks[index] {
                if let TaskState::Sleeping { until } = task.state {
                    if now >= until {
                        tasks[index] = Some(Task { entry: task.entry, state: TaskState::Ready });
                    }
                }
            }
            index += 1;
        }
        self.tasks = tasks;
        assert(self@ =~= all_woken(old(self)@, now));
        proof { lemma_stats_woken(old(self)@, now); }
    }

    /// The first ready slot at or cyclically after the cursor.
    fn find_next_ready(&self) -> (index: Option<usize>)
        ensures
            match next_ready(self@, self.cursor()) {
                None => index.is_none(),
                Some(i) => index == Some(i as usize),
            },
    {
        proof { use_type_invariant(self); }
        let mut offset: usize = 0;
        while offset < MAX_TASKS
            invariant
                offset <= MAX_TASKS,
                self.next < MAX_TASKS,
                next_ready(self@, self.cursor()) == next_ready_from(self@, self.cursor(), offset as int),
            decreases MAX_TASKS - offset,
        {
            let index = (self.next + offset) % MAX_TASKS;
            let ready = match self.tasks[index] {
                Some(task) => task.state == TaskState::Ready,
                None => false,
            };
            if ready {
                return Some(index);
            }
            offset += 1;
        }
        None
    }

    /// Runs at most one ready task and returns its identifier.
    ///
    /// Expired sleepers are woken first; then the first ready task at or
    /// after the cursor runs, and the action it returns decides its state.
    /// The cursor moves past it, so ready tasks take turns.
    pub fn run_next(&mut self, now: u64) -> (result: Result<Option<TaskId>, SchedulerError>)
        ensures
            result is Ok,
            forall|i: int| 0 <= i < MAX_TASKS ==> #[trigger] final(self).entry(i) == old(self).entry(i),
            final(self).contexts() == old(self).contexts(),
            final(self).stacks() == old(self).stacks(),
            ({
                let woke = all_woken(old(self)@, now);
                match next_ready(woke, old(self).cursor()) {
                    None => result == Ok::<Option<TaskId>, SchedulerError>(None) && final(self)@ == woke
                        && final(self).cursor() == old(self).cursor(),
                    Some(i) => (result matches Ok(Some(id)) && id@ == i)
                        && final(self).cursor() == (i + 1) % (MAX_TASKS as int)
                        && exists|action: TaskAction| #[trigger] old(self).entry(i).ensures((), action)
                            && final(self)@ == woke.update(i, Some(state_after(action, now))),
                }
            }),
            stats_of(final(self)@).0 == stats_of(old(self)@).0,
            stats_of(old(self)@).3 == 0 ==> stats_of(final(self)@).3 == 0,
    {
        proof {
            lemma_stats_woken(old(self)@, now);
        }
        self.wake_expired(now);
        proof { use_type_invariant(&*self); }
        let index = match self.find_next_ready() {
            Some(index) => index,
            None => return Ok(None),
        };
        proof { lemma_next_ready_from(self@, self.cursor(), 0); }
        assert(self@[index as int] == Some(TaskState::Ready));
        let ghost woke = self@;
        let ghost woke_self = *self;
        let entry = match self.tasks[index] {
            Some(task) => task.entry,
            None => return Err(SchedulerError::InvalidTask),
        };
        assert(entry == self.entry(index as int));
        assert(self.entry(index as int) == old(self).entry(index as int));
        let mut tasks = self.tasks;
        tasks[index] = Some(Task { entry, state: TaskState::Running });
        self.tasks = tasks;
        let action = entry();
        let state = match action {
            TaskAction::Yield => TaskState::Ready,
            TaskAction::SleepUntil(until) => if until <= now { TaskState::Ready } else { TaskState::Sleeping { until } },
            TaskAction::Exit => TaskState::Finished,
        };
        tasks[index] = Some(Task { entry, state });
        self.tasks = tasks;
        self.next = (index + 1) % MAX_TASKS;
        assert(self@ =~= woke.update(index as int, Some(state_after(action, now))));
        assert(old(self).entry(index as int).ensures((), action));
        proof {
            lemma_stats_update(woke, index as int, Some(state_after(action, now)));
            lemma_stats_bounded_running(woke, index as int);
        }
        assert forall|i: int| 0 <= i < MAX_TASKS implies #[trigger] self.entry(i) == old(self).entry(i) by {
            if i != index {
                assert(self.tasks@[i] == woke_self.tasks@[i]);
                assert(woke_self.entry(i) == old(self).entry(i));
            }
        }
        Ok(Some(TaskId(index)))
    }

    /// Counts of the tasks, by state.
    pub fn stats(&self) -> (stats: SchedulerStats)
        ensures
            stats.task_count == stats_of(self@).0,
            stats.ready == stats_of(self@).1,
            stats.sleeping == stats_of(self@).2,
            stats.running == stats_of(self@).3,
    {
        let mut stats = SchedulerStats { task_count: 0, ready: 0, sleeping: 0, running: 0 };
        let mut index: usize = 0;
        let ghost slots = self@;
        assert(slots.take(0) =~= Seq::<Option<TaskState>>::empty());
        while index < MAX_TASKS
            invariant
                index <= MAX_TASKS,
                slots == self@,
                slots.len() == MAX_TASKS,
                stats.task_count == stats_of(slots.take(index as int)).0,
                stats.ready == stats_of(slots.take(index as int)).1,
                stats.sleeping == stats_of(slots.take(index as int)).2,
                stats.running == stats_of(slots.take(index as int)).3,
            decreases MAX_TASKS - index,
        {
            let ghost next = slots.take(index + 1);
            assert(next.drop_last() =~= slots.take(index as int));
            proof { lemma_stats_bounded(slots.take(index as int)); }
            if let Some(task) = self.tasks[index] {
                stats.task_count += 1;
                match task.state {
                    TaskState::Ready => stats.ready += 1,
                    TaskState::Sleeping { .. } => stats.sleeping += 1,
                    TaskState::Running => stats.running += 1,
                    TaskState::Finished => {},
                }
            }
            index += 1;
        }
        assert(slots.take(MAX_TASKS as int) =~= slots);
        stats
    }
}

} // verus!

verus! {

/// The slot met `offset` steps after `from` in a cyclic walk.
pub open spec fn slot_at(from: int, offset: int) -> int {
    (from + offset) % (MAX_TASKS as int)
}

proof fn lemma_next_ready_first(slots: Seq<Option<TaskState>>, from: int, k: int)
    requires
        slots.len() == MAX_TASKS,
        0 <= from,
        0 <= k,
    ensures
        next_ready_from(slots, from, k) matches Some(r) ==> exists|o: int|
            k <= o < MAX_TASKS && r == #[trigger] slot_at(from, o) && is_ready(slots[r])
                && forall|p: int| k <= p < o ==> !is_ready(#[trigger] slots[slot_at(from, p)]),
        next_ready_from(slots, from, k) is None ==> forall|p: int|
            k <= p < MAX_TASKS ==> !is_ready(#[trigger] slots[slot_at(from, p)]),
    decreases MAX_TASKS - k,
{
    if k < MAX_TASKS {
        lemma_next_ready_first(slots, from, k + 1);
        if is_ready(slots[slot_at(from, k)]) {
            let r = slot_at(from, k);
            assert(k <= k < MAX_TASKS && r == slot_at(from, k) && is_ready(slots[r])
                && forall|p: int| k <= p < k ==> !is_ready(#[trigger] slots[slot_at(from, p)]));
        } else if next_ready_from(slots, from, k + 1) is Some {
            let r = next_ready_from(slots, from, k + 1).unwrap();
            let o = choose|o: int|
                k + 1 <= o < MAX_TASKS && r == #[trigger] slot_at(from, o) && is_ready(slots[r])
                    && forall|p: int| k + 1 <= p < o ==> !is_ready(#[trigger] slots[slot_at(from, p)]);
            assert forall|p: int| k <= p < o implies !is_ready(#[trigger] slots[slot_at(from, p)]) by {
                if p > k {
                    assert(k + 1 <= p < o);
                }
            }
        }
    }
}

/// When some task is ready, the scheduler runs one: the task it picks is
/// ready, and it picks nothing only when no task is ready.
pub proof fn run_next_picks_a_ready_task_when_there_is_one(slots: Seq<Option<TaskState>>, cursor: int)
    requires
        slots.len() == MAX_TASKS,
        0 <= cursor < MAX_TASKS,
    ensures
        next_ready(slots, cursor) matches Some(r) ==> 0 <= r < MAX_TASKS && is_ready(slots[r]),
        next_ready(slots, cursor) is None <==> forall|j: int| 0 <= j < MAX_TASKS ==> !is_ready(#[trigger] slots[j]),
{
    lemma_next_ready_first(slots, cursor, 0);
    lemma_next_ready_from(slots, cursor, 0);
    if next_ready(slots, cursor) is None {
        assert forall|j: int| 0 <= j < MAX_TASKS implies !is_ready(#[trigger] slots[j]) by {
            let p = if j >= cursor { j - cursor } else { j + MAX_TASKS - cursor };
            assert(slot_at(cursor, p) == j);
            assert(!is_ready(slots[slot_at(cursor, p)]));
        }
    }
}

/// Ready tasks take turns: after the task in slot `r` has run, the cursor is
/// just past it, so while another task is ready, `r` is not picked next.
pub proof fn ready_tasks_take_turns(slots: Seq<Option<TaskState>>, r: int, other: int)
    requires
        slots.len() == MAX_TASKS,
        0 <= r < MAX_TASKS,
        0 <= other < MAX_TASKS,
        other != r,
        is_ready(slots[other]),
    ensures
        next_ready(slots, (r + 1) % (MAX_TASKS as int)) != Some(r),
{
    let from = (r + 1) % (MAX_TASKS as int);
    lemma_next_ready_first(slots, from, 0);
    if next_ready(slots, from) == Some(r) {
        let o = choose|o: int|
            0 <= o < MAX_TASKS && r == #[trigger] slot_at(from, o) && is_ready(slots[r])
                && forall|p: int| 0 <= p < o ==> !is_ready(#[trigger] slots[slot_at(from, p)]);
        assert(o == MAX_TASKS - 1);
        let p = if other > r { other - r - 1 } else { other + MAX_TASKS - r - 1 };
        assert(slot_at(from, p) == other);
        assert(!is_ready(slots[slot_at(from, p)]));
    }
}

/// A finished task is never run again and stays finished: waking leaves it
/// finished and the scheduler does not pick it.
pub proof fn finished_tasks_stay_finished(slots: Seq<Option<TaskState>>, cursor: int, now: u64, i: int)
    requires
        slots.len() == MAX_TASKS,
        0 <= cursor < MAX_TASKS,
        0 <= i < MAX_TASKS,
        slots[i] == Some(TaskState::Finished),
    ensures
        all_woken(slots, now)[i] == Some(TaskState::Finished),
        next_ready(all_woken(slots, now), cursor) != Some(i),
{
    lemma_next_ready_from(all_woken(slots, now), cursor, 0);
}

/// A task sleeping until a tick later than `now` stays asleep and is not run.
pub proof fn sleepers_wait_for_their_deadline(slots: Seq<Option<TaskState>>, cursor: int, now: u64, i: int, until: u64)
    requires
        slots.len() == MAX_TASKS,
        0 <= cursor < MAX_TASKS,
        0 <= i < MAX_TASKS,
        slots[i] == Some(TaskState::Sleeping { until }),
        now < until,
    ensures
        all_woken(slots, now)[i] == Some(TaskState::Sleeping { until }),
        next_ready(all_woken(slots, now), cursor) != Some(i),
{
    lemma_next_ready_from(all_woken(slots, now), cursor, 0);
}

/// Whether a slot holds a task, and whether it holds a running one.
pub open spec fn occupied(slot: Option<TaskState>) -> int {
    if slot is Some { 1 } else { 0 }
}

pub open spec fn running(slot: Option<TaskState>) -> int {
    if slot == Some(TaskState::Running) { 1 } else { 0 }
}

/// Replacing one slot changes the task count and the running count by what
/// the slot held before and holds after.
proof fn lemma_stats_update(slots: Seq<Option<TaskState>>, j: int, slot: Option<TaskState>)
    requires
        0 <= j < slots.len(),
    ensures
        stats_of(slots.update(j, slot)).0 == stats_of(slots).0 - occupied(slots[j]) + occupied(slot),
        stats_of(slots.update(j, slot)).3 == stats_of(slots).3 - running(slots[j]) + running(slot),
    decreases slots.len(),
{
    let w = slots.update(j, slot);
    if j == slots.len() - 1 {
        assert(w.drop_last() =~= slots.drop_last());
    } else {
        lemma_stats_update(slots.drop_last(), j, slot);
        assert(w.drop_last() =~= slots.drop_last().update(j, slot));
        assert(w.last() == slots.last());
    }
}

/// Waking sleepers keeps the task count and the running count.
proof fn lemma_stats_woken(slots: Seq<Option<TaskState>>, now: u64)
    ensures
        stats_of(all_woken(slots, now)).0 == stats_of(slots).0,
        stats_of(all_woken(slots, now)).3 == stats_of(slots).3,
    decreases slots.len(),
{
    if slots.len() > 0 {
        lemma_stats_woken(slots.drop_last(), now);
        assert(all_woken(slots, now).drop_last() =~= all_woken(slots.drop_last(), now));
        assert(all_woken(slots, now).last() == woken(slots.last(), now));
    }
}

/// The task count grows only by spawning: a spawn into a free slot adds one
/// task, while waking sleepers and running a task (whatever action it
/// returns) keep the count.
pub proof fn only_spawning_adds_tasks(slots: Seq<Option<TaskState>>, free: int, ran: int, now: u64, action: TaskAction)
    requires
        0 <= free < slots.len(),
        slots[free] is None,
        0 <= ran < slots.len(),
        is_ready(all_woken(slots, now)[ran]),
    ensures
        stats_of(slots.update(free, Some(TaskState::Ready))).0 == stats_of(slots).0 + 1,
        stats_of(all_woken(slots, now)).0 == stats_of(slots).0,
        stats_of(all_woken(slots, now).update(ran, Some(state_after(action, now)))).0 == stats_of(slots).0,
{
    lemma_stats_update(slots, free, Some(TaskState::Ready));
    lemma_stats_woken(slots, now);
    lemma_stats_update(all_woken(slots, now), ran, Some(state_after(action, now)));
}

/// No task is left running: when none is running, none is after a spawn,
/// after waking sleepers, or after a task has run and returned its action.
pub proof fn no_task_stays_running(slots: Seq<Option<TaskState>>, free: int, ran: int, now: u64, action: TaskAction)
    requires
        stats_of(slots).3 == 0,
        0 <= free < slots.len(),
        0 <= ran < slots.len(),
    ensures
        stats_of(slots.update(free, Some(TaskState::Ready))).3 == 0,
        stats_of(all_woken(slots, now)).3 == 0,
        stats_of(all_woken(slots, now).update(ran, Some(state_after(action, now)))).3 == 0,
{
    lemma_stats_bounded_running(slots, free);
    lemma_stats_update(slots, free, Some(TaskState::Ready));
    lemma_stats_woken(slots, now);
    assert(all_woken(slots, now).len() == slots.len());
    lemma_stats_bounded_running(all_woken(slots, now), ran);
    lemma_stats_update(all_woken(slots, now), ran, Some(state_after(action, now)));
}

/// A slot that holds a running task counts in the running count.
proof fn lemma_stats_bounded_running(slots: Seq<Option<TaskState>>, j: int)
    requires
        0 <= j < slots.len(),
    ensures
        running(slots[j]) <= stats_of(slots).3,
    decreases slots.len(),
{
    lemma_stats_bounded(slots.drop_last());
    if j < slots.len() - 1 {
        lemma_stats_bounded_running(slots.drop_last(), j);
        assert(slots.drop_last()[j] == slots[j]);
    }
}

/// Free slots hold no task.
proof fn lemma_stats_empty(n: nat)
    ensures
        stats_of(Seq::new(n, |i: int| None::<TaskState>)) == (0int, 0int, 0int, 0int),
    decreases n,
{
    if n > 0 {
        lemma_stats_empty((n - 1) as nat);
        assert(Seq::new(n, |i: int| None::<TaskState>).drop_last() =~= Seq::new((n - 1) as nat, |i: int| None::<TaskState>));
    }
}

/// One change of the slot states that the scheduler's operations make: a
/// spawn into a slot, a wake-up of the sleepers at a tick, or a run of the
/// task in a slot at a tick that returned an action.
pub enum SchedulerStep {
    Spawn(usize),
    Wake(u64),
    Run(u64, usize, TaskAction),
}

/// Whether `step` is one the scheduler can make from `slots`: a spawn fills
/// a free slot, and a run picks a task that is ready once sleepers are woken.
pub open spec fn step_allowed(slots: Seq<Option<TaskState>>, step: SchedulerStep) -> bool {
    match step {
        SchedulerStep::Spawn(i) => 0 <= i < slots.len() && slots[i as int] is None,
        SchedulerStep::Wake(_) => true,
        SchedulerStep::Run(now, i, _) => 0 <= i < slots.len() && is_ready(all_woken(slots, now)[i as int]),
    }
}

/// The slot states after `step`, as `spawn`, `wake_expired` and `run_next`
/// leave them.
pub open spec fn after_step(slots: Seq<Option<TaskState>>, step: SchedulerStep) -> Seq<Option<TaskState>> {
    match step {
        SchedulerStep::Spawn(i) => slots.update(i as int, Some(TaskState::Ready)),
        SchedulerStep::Wake(now) => all_woken(slots, now),
        SchedulerStep::Run(now, i, action) => all_woken(slots, now).update(i as int, Some(state_after(action, now))),
    }
}

/// Whether every step of `steps` is allowed from the states the earlier
/// steps leave, starting from `slots`.
pub open spec fn steps_allowed(slots: Seq<Option<TaskState>>, steps: Seq<SchedulerStep>) -> bool
    decreases steps.len(),
{
    if steps.len() == 0 {
        true
    } else {
        step_allowed(slots, steps[0]) && steps_allowed(after_step(slots, steps[0]), steps.drop_first())
    }
}

/// The slot states after every step of `steps`, from `slots`.
pub open spec fn after_steps(slots: Seq<Option<TaskState>>, steps: Seq<SchedulerStep>) -> Seq<Option<TaskState>>
    decreases steps.len(),
{
    if steps.len() == 0 {
        slots
    } else {
        after_steps(after_step(slots, steps[0]), steps.drop_first())
    }
}

/// The number of spawns among `steps`.
pub open spec fn spawns(steps: Seq<SchedulerStep>) -> int
    decreases steps.len(),
{
    if steps.len() == 0 {
        0
    } else {
        (if steps[0] is Spawn { 1int } else { 0int }) + spawns(steps.drop_first())
    }
}

/// Over any history of spawns, wake-ups and runs from a scheduler whose
/// slots are all free, the task count is the number of spawns and no task
/// is left running.
pub proof fn stats_over_any_history(steps: Seq<SchedulerStep>)
    requires
        steps_allowed(Seq::new(MAX_TASKS as nat, |i: int| None::<TaskState>), steps),
    ensures
        stats_of(after_steps(Seq::new(MAX_TASKS as nat, |i: int| None::<TaskState>), steps)).0 == spawns(steps),
        stats_of(after_steps(Seq::new(MAX_TASKS as nat, |i: int| None::<TaskState>), steps)).3 == 0,
{
    lemma_stats_empty(MAX_TASKS as nat);
    lemma_steps(Seq::new(MAX_TASKS as nat, |i: int| None::<TaskState>), steps);
}

proof fn lemma_steps(slots: Seq<Option<TaskState>>, steps: Seq<SchedulerStep>)
    requires
        steps_allowed(slots, steps),
        stats_of(slots).3 == 0,
    ensures
        stats_of(after_steps(slots, steps)).0 == stats_of(slots).0 + spawns(steps),
        stats_of(after_steps(slots, steps)).3 == 0,
    decreases steps.len(),
{
    if steps.len() > 0 {
        let next = after_step(slots, steps[0]);
        match steps[0] {
            SchedulerStep::Spawn(i) => {
                lemma_stats_update(slots, i as int, Some(TaskState::Ready));
                lemma_stats_bounded_running(slots, i as int);
            },
            SchedulerStep::Wake(now) => {
                lemma_stats_woken(slots, now);
            },
            SchedulerStep::Run(now, i, action) => {
                lemma_stats_woken(slots, now);
                assert(all_woken(slots, now).len() == slots.len());
                lemma_stats_update(all_woken(slots, now), i as int, Some(state_after(action, now)));
                lemma_stats_bounded_running(all_woken(slots, now), i as int);
            },
        }
        lemma_steps(next, steps.drop_first());
    }
}

} // verus!
