# shuttle

A verified core for testing concurrent code under a scheduler that makes every choice itself.

- `src/scheduler/` holds the depth-first scheduler. `dfs.rs` states each of its steps;
  `search.rs` proves what a whole search explores: every schedule of a test body of bounded depth,
  each one once, depth first.
- `src/runtime/` holds the state of one execution: tasks, vector clocks, local values, what the
  scheduler is offered, and when an execution is over or deadlocked. `laws.rs` holds what is true
  of all executions.
- `src/future.rs` holds the steps of `spawn`, `block_on`, `yield_now` and join handles. Each takes
  what has just happened and says what is next, so that polling and switching stay with the
  driver. `future/laws.rs` proves what awaiting gives and what aborting does. `future/runs.rs`
  proves what holds over any sequence of operations: that no wakeup is lost, that a task whose
  handle is held is run to its end and joined, that an abort between two polls
  cancels for good, and that only aborted tasks are cancelled.
- `src/current.rs` answers what a test asks about the task that runs it.
- `app/` drives real futures by those steps, one OS thread per task.

The random values of an execution come from `rand_pcg`; `src/scheduler/data.rs` says what is
believed of it.
