//! Tasks and the state of one execution.

pub mod clock;
pub mod effects;
pub mod execution;
pub mod laws;
pub mod storage;
pub mod task;
pub mod task_id;
