//! The saved CPU context of a task: its stack pointer and the callee-saved
//! registers, in the order a context switch stores them.

use vstd::prelude::*;

verus! {

#[derive(Clone, Copy, Debug, PartialEq, Eq, Structural)]
pub struct TaskContext {
    pub stack_pointer: usize,
    pub rbx: usize,
    pub rbp: usize,
    pub r12: usize,
    pub r13: usize,
    pub r14: usize,
    pub r15: usize,
}

impl TaskContext {
    /// A context with every register zeroed.
    pub fn new() -> (context: TaskContext)
        ensures
            context == (TaskContext { stack_pointer: 0, rbx: 0, rbp: 0, r12: 0, r13: 0, r14: 0, r15: 0 }),
    {
        TaskContext { stack_pointer: 0, rbx: 0, rbp: 0, r12: 0, r13: 0, r14: 0, r15: 0 }
    }
}

impl Default for TaskContext {
    /// The zeroed context, as [`TaskContext::new`] gives.
    fn default() -> (context: TaskContext)
        ensures
            context == (TaskContext { stack_pointer: 0, rbx: 0, rbp: 0, r12: 0, r13: 0, r14: 0, r15: 0 }),
    {
        TaskContext::new()
    }
}

} // verus!
