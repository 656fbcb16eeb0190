use std::cell::Cell;

use agnostos::task::context::TaskContext;
use agnostos::task::stack::{top_for, TaskStack, TASK_STACK_SIZE};
use agnostos::task::{Scheduler, SchedulerError, TaskAction, TaskState, MAX_TASKS};

#[test]
fn context_has_only_saved_stack_and_callee_saved_registers() {
    assert_eq!(core::mem::size_of::<TaskContext>(), 7 * core::mem::size_of::<usize>());
    assert_eq!(core::mem::align_of::<TaskContext>(), core::mem::align_of::<usize>());
}

#[test]
fn schedules_ready_tasks_round_robin() {
    let runs = [Cell::new(0usize), Cell::new(0usize)];
    let counters = &runs;
    let task = |id: usize| {
        move || {
            counters[id].set(counters[id].get() + 1);
            TaskAction::Yield
        }
    };
    let mut scheduler = Scheduler::new();
    let first = scheduler.spawn(task(0)).unwrap();
    let second = scheduler.spawn(task(1)).unwrap();

    assert_eq!(scheduler.run_next(0).unwrap(), Some(first));
    assert_eq!(scheduler.run_next(0).unwrap(), Some(second));
    assert_eq!(scheduler.run_next(0).unwrap(), Some(first));
    assert_eq!(runs[0].get(), 2);
    assert_eq!(runs[1].get(), 1);
}

fn sleeping_task() -> TaskAction {
    TaskAction::SleepUntil(10)
}

#[test]
fn sleeping_tasks_wake_at_their_deadline() {
    let mut scheduler = Scheduler::<fn() -> TaskAction>::new();
    let task = scheduler.spawn(sleeping_task).unwrap();
    assert_eq!(scheduler.run_next(0).unwrap(), Some(task));
    assert_eq!(scheduler.state(task), Some(TaskState::Sleeping { until: 10 }));
    assert_eq!(scheduler.run_next(9).unwrap(), None);
    assert_eq!(scheduler.run_next(10).unwrap(), Some(task));
}

fn exiting_task() -> TaskAction {
    TaskAction::Exit
}

#[test]
fn exiting_tasks_are_not_scheduled_again() {
    let mut scheduler = Scheduler::<fn() -> TaskAction>::new();
    let task = scheduler.spawn(exiting_task).unwrap();
    assert_eq!(scheduler.run_next(0).unwrap(), Some(task));
    assert_eq!(scheduler.state(task), Some(TaskState::Finished));
    assert_eq!(scheduler.run_next(0).unwrap(), None);
    assert_eq!(scheduler.stats().task_count, 1);
}

#[test]
fn stack_is_aligned_and_has_expected_capacity() {
    let stack = TaskStack::new();
    assert_eq!(TASK_STACK_SIZE, 4 * 1024);
    assert_eq!(stack.top() % 16, 0);
}

fn yielding_task() -> TaskAction {
    TaskAction::Yield
}

#[test]
fn spawning_beyond_the_task_table_is_refused() {
    let mut scheduler = Scheduler::<fn() -> TaskAction>::new();
    for i in 0..MAX_TASKS {
        assert_eq!(scheduler.spawn(yielding_task).unwrap().index(), i);
    }
    assert_eq!(scheduler.spawn(yielding_task), Err(SchedulerError::NoTaskSlots));
    assert_eq!(scheduler.stats().task_count, MAX_TASKS);
    assert_eq!(scheduler.stats().ready, MAX_TASKS);
}

#[test]
fn new_tasks_are_ready_with_a_fresh_context_on_their_own_stack() {
    let mut scheduler = Scheduler::<fn() -> TaskAction>::new();
    assert_eq!(scheduler.run_next(0).unwrap(), None);
    let task = scheduler.spawn(yielding_task).unwrap();
    assert_eq!(scheduler.state(task), Some(TaskState::Ready));
    let top = scheduler.stack(task).unwrap().top();
    let context = *scheduler.context(task).unwrap();
    assert_eq!(context, TaskContext { stack_pointer: top, ..TaskContext::new() });
    let stats = scheduler.stats();
    assert_eq!((stats.task_count, stats.ready, stats.sleeping, stats.running), (1, 1, 0, 0));
}

#[test]
fn wake_expired_readies_only_due_sleepers() {
    let mut scheduler = Scheduler::<fn() -> TaskAction>::new();
    let task = scheduler.spawn(sleeping_task).unwrap();
    scheduler.run_next(0).unwrap();
    scheduler.wake_expired(9);
    assert_eq!(scheduler.state(task), Some(TaskState::Sleeping { until: 10 }));
    assert_eq!(scheduler.stats().sleeping, 1);
    scheduler.wake_expired(10);
    assert_eq!(scheduler.state(task), Some(TaskState::Ready));
}

#[test]
fn scheduler_error_messages_are_distinct() {
    assert_ne!(SchedulerError::NoTaskSlots.message(), SchedulerError::InvalidTask.message());
}

#[test]
fn a_fresh_frame_sits_just_below_the_stack_top() {
    let mut stack = TaskStack::new();
    let context = TaskContext { stack_pointer: 0, rbx: 1, rbp: 2, r12: 3, r13: 4, r14: 5, r15: 6 };
    let stack_pointer = stack.initialize_frame(&context, 0xdead_beef);
    assert_eq!(stack_pointer % 16, 8);
    assert_eq!(stack_pointer, stack.top() - 7 * 8);
}

#[test]
fn the_default_context_is_the_zero_context() {
    assert_eq!(TaskContext::default(), TaskContext::new());
    assert_eq!(TaskContext::default().stack_pointer, 0);
}

fn finishing_task() -> TaskAction {
    TaskAction::Exit
}

#[test]
fn spawns_alone_count_tasks_and_none_stays_running() {
    let mut scheduler = Scheduler::<fn() -> TaskAction>::new();
    assert_eq!(scheduler.stats().task_count, 0);
    scheduler.spawn(finishing_task).unwrap();
    scheduler.spawn(sleeping_task).unwrap();
    assert_eq!(scheduler.stats().task_count, 2);
    scheduler.run_next(0).unwrap();
    scheduler.run_next(0).unwrap();
    scheduler.run_next(20).unwrap();
    let stats = scheduler.stats();
    assert_eq!(stats.task_count, 2);
    assert_eq!(stats.running, 0);
}

#[test]
fn the_stack_top_is_the_end_of_the_storage_rounded_down_to_sixteen() {
    assert_eq!(top_for(0x1000), 0x2000);
    assert_eq!(top_for(0x1008), 0x2000);
    assert_eq!(top_for(0x100f), 0x2000);
    assert_eq!(top_for(0x1010), 0x2010);
    let stack = TaskStack::new();
    let top = stack.top();
    let base = top - TASK_STACK_SIZE;
    assert!(top >= TASK_STACK_SIZE && top_for(base) <= top + 15);
}
