//! System call logic.

pub mod deadlock;
pub mod sync;
pub mod process;
pub mod fs;
