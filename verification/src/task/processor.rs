//! The processor: which task runs now.
use vstd::prelude::*;
use crate::task::task::TaskContext;

verus! {

/// The processor's state: the running task, if any, and the context of the
/// idle control flow that picks tasks to run.
pub struct Processor {
    /// The pid of the running task.
    pub current: Option<usize>,
    /// The idle control flow's saved context.
    pub idle_task_cx: TaskContext,
}

impl Processor {
    /// A processor running nothing.
    pub fn new() -> (p: Self)
        ensures
            (p.current is None),
            p.idle_task_cx == (TaskContext { ra: 0, sp: 0 }),
    {
        Processor { current: None, idle_task_cx: TaskContext::zero_init() }
    }

    /// Takes the running task out of the processor.
    pub fn take_current(&mut self) -> (t: Option<usize>)
        ensures
            t == old(self).current,
            (final(self).current is None),
            final(self).idle_task_cx == old(self).idle_task_cx,
    {
        self.current.take()
    }

    /// The running task.
    pub fn current(&self) -> (t: Option<usize>)
        ensures
            t == self.current,
    {
        self.current
    }

    /// The idle control flow's context.
    pub fn get_idle_task_cx_ptr(&self) -> (c: &TaskContext)
        ensures
            *c == self.idle_task_cx,
    {
        &self.idle_task_cx
    }
}

} // verus!
