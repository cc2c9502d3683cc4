//! A verified model of a small teaching kernel's task, scheduling and
//! synchronisation layer: the stride scheduler's ready queue, the id
//! allocators, the per-task system call record, the process table with its
//! system calls, and the banker's-algorithm deadlock detector used by the
//! mutex and semaphore system calls.

pub mod config;
pub mod fs;
pub mod mm;
pub mod sync;
pub mod task;
pub mod syscall;
