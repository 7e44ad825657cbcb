//! The decisions of a deterministic tester for concurrent code.
//!
//! A test body runs as tasks of which one at a time makes progress. At each scheduling point the
//! runtime says which tasks can go on, a scheduler chooses one of them, and the choices made
//! describe the execution completely. This crate holds what is decided on the way: the state of
//! an execution ([`runtime`]), the steps of spawning, awaiting and aborting async tasks
//! ([`future`]), what a test can ask about itself ([`current`]), and the scheduler that enumerates
//! all schedules ([`scheduler`]). What calls of these functions give, one after the other, is stated
//! in [`calls`].

pub mod calls;
pub mod current;
pub mod future;
pub mod runtime;
pub mod scheduler;
