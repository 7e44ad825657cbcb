//! Schedules and the policies that choose them.

use vstd::prelude::*;

use crate::runtime::task_id::TaskId;

pub mod data;
pub mod dfs;
pub mod search;

verus! {

/// One recorded decision of an execution.
#[derive(Clone, Copy, Debug, PartialEq, Eq, Structural)]
pub enum ScheduleStep {
    /// The task was chosen to run.
    Task(TaskId),
    /// A random value was drawn.
    Random,
}

/// The record of one execution: the seed of its random values and the decisions made so far.
#[derive(Debug)]
pub struct Schedule {
    pub seed: u64,
    pub steps: Vec<ScheduleStep>,
}

impl Schedule {
    /// An empty record for an execution whose random values come from `seed`.
    pub fn new(seed: u64) -> (schedule: Self)
        ensures
            schedule.seed == seed,
            schedule.steps@ == Seq::<ScheduleStep>::empty(),
    {
        Schedule { seed, steps: Vec::new() }
    }
}

} // verus!
