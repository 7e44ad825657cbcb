//! Exhaustive, depth-first enumeration of schedules.

use vstd::prelude::*;

use crate::runtime::task_id::TaskId;
use crate::scheduler::data::{pcg_seeded_draw, FixedDataSource};
use crate::scheduler::Schedule;

verus! {

/// The seed of the random values of every execution.
pub const DFS_RANDOM_SEED: u64 = 0x12345678;

/// What a depth-first search remembers: for each decision point of the last execution the choice
/// made there and whether that was the last option, where it stands now, and the random values
/// that are still to come in this execution.
#[verifier::ext_equal]
pub struct DfsView {
    pub max_iterations: Option<usize>,
    pub allow_random_data: bool,
    pub iterations: nat,
    pub levels: Seq<(TaskId, bool)>,
    pub steps: nat,
    pub random: spec_fn(nat) -> u64,
}

/// Whether some level at or below `index` has options left.
pub open spec fn more_choices(levels: Seq<(TaskId, bool)>, index: int) -> bool {
    exists|j: int| index <= j < levels.len() && !(#[trigger] levels[j]).1
}

/// The first position of `task` in `runnable` at or after `from`, or the length if there is none.
pub open spec fn first_position(runnable: Seq<TaskId>, task: TaskId, from: int) -> int
    decreases runnable.len() - from,
{
    if from >= runnable.len() {
        runnable.len() as int
    } else if runnable[from] == task {
        from
    } else {
        first_position(runnable, task, from + 1)
    }
}

/// Where the search turns when it changes its choice away from `last`.
pub open spec fn next_option(runnable: Seq<TaskId>, last: TaskId) -> int {
    first_position(runnable, last, 0) + 1
}

/// The random values of every execution.
pub open spec fn random_stream() -> spec_fn(nat) -> u64 {
    |n: nat| pcg_seeded_draw(DFS_RANDOM_SEED, n)
}

impl DfsView {
    /// A search that has run no execution yet.
    pub open spec fn fresh(max_iterations: Option<usize>, allow_random_data: bool) -> DfsView {
        DfsView {
            max_iterations,
            allow_random_data,
            iterations: 0,
            levels: Seq::empty(),
            steps: 0,
            random: random_stream(),
        }
    }

    /// The execution limit has been reached.
    pub open spec fn limit_reached(self) -> bool {
        self.max_iterations matches Some(limit) && self.iterations >= limit
    }

    /// Every schedule has been explored.
    pub open spec fn exhausted(self) -> bool {
        self.iterations > 0 && !more_choices(self.levels, 0)
    }

    /// Another execution is to be run.
    pub open spec fn can_start(self) -> bool {
        !self.limit_reached() && !self.exhausted()
    }

    /// The search at the start of its next execution.
    pub open spec fn started(self) -> DfsView {
        DfsView { iterations: self.iterations + 1, steps: 0, random: random_stream(), ..self }
    }

    /// This decision point is deeper than any that the search remembers.
    pub open spec fn at_new_level(self) -> bool {
        self.steps >= self.levels.len()
    }

    /// The remembered choice is repeated, because a deeper level has options left.
    pub open spec fn repeats(self) -> bool {
        !self.at_new_level() && more_choices(self.levels, (self.steps + 1) as int)
    }

    /// A choice can be made among `runnable`.
    pub open spec fn can_choose(self, runnable: Seq<TaskId>) -> bool {
        if self.at_new_level() {
            runnable.len() > 0
        } else if self.repeats() {
            true
        } else {
            &&& !self.levels[self.steps as int].1
            &&& next_option(runnable, self.levels[self.steps as int].0) < runnable.len()
        }
    }

    /// The choice among `runnable`.
    pub open spec fn choice(self, runnable: Seq<TaskId>) -> TaskId {
        if self.at_new_level() {
            runnable[0]
        } else if self.repeats() {
            self.levels[self.steps as int].0
        } else {
            runnable[next_option(runnable, self.levels[self.steps as int].0)]
        }
    }

    /// The levels after the choice among `runnable`.
    pub open spec fn levels_after(self, runnable: Seq<TaskId>) -> Seq<(TaskId, bool)> {
        if self.at_new_level() {
            self.levels.push((runnable[0], runnable.len() == 1))
        } else if self.repeats() {
            self.levels
        } else {
            let option = next_option(runnable, self.levels[self.steps as int].0);
            self.levels.take(self.steps as int).push(
                (runnable[option], option == runnable.len() - 1),
            )
        }
    }

    /// The search after the choice among `runnable`.
    pub open spec fn after_choice(self, runnable: Seq<TaskId>) -> DfsView {
        DfsView { levels: self.levels_after(runnable), steps: self.steps + 1, ..self }
    }

    /// The search after one random value was drawn.
    pub open spec fn after_draw(self) -> DfsView {
        DfsView { random: |n: nat| (self.random)(n + 1), ..self }
    }
}

/// A scheduler that performs an exhaustive, depth-first enumeration of all possible schedules.
#[derive(Debug)]
pub struct DfsScheduler {
    max_iterations: Option<usize>,
    allow_random_data: bool,
    iterations: usize,
    // For each level the previous choice, and whether it was the last option at that level.
    levels: Vec<(TaskId, bool)>,
    steps: usize,
    data_source: FixedDataSource,
}

impl View for DfsScheduler {
    type V = DfsView;

    closed spec fn view(&self) -> DfsView {
        DfsView {
            max_iterations: self.max_iterations,
            allow_random_data: self.allow_random_data,
            iterations: self.iterations as nat,
            levels: self.levels@,
            steps: self.steps as nat,
            random: self.data_source.upcoming(),
        }
    }
}

impl DfsScheduler {
    /// The current execution is never deeper than the levels, and the random values are those of
    /// the fixed seed.
    pub closed spec fn wf(&self) -> bool {
        &&& self.steps <= self.levels.len()
        &&& self.data_source.stream_seed() == DFS_RANDOM_SEED
    }

    /// A scheduler with an optional bound on how many executions to run. It can optionally allow
    /// random data, which makes the search incomplete, as it will not explore all possible values
    /// for the random choices: each execution uses the same sequence of random choices.
    pub fn new(max_iterations: Option<usize>, allow_random_data: bool) -> (scheduler: Self)
        ensures
            scheduler.wf(),
            scheduler@ == DfsView::fresh(max_iterations, allow_random_data),
    {
        DfsScheduler {
            max_iterations,
            allow_random_data,
            iterations: 0,
            levels: Vec::new(),
            steps: 0,
            data_source: FixedDataSource::initialize(DFS_RANDOM_SEED),
        }
    }

    /// Whether any decision point at or below the level `index` has options left to explore.
    pub fn has_more_choices(&self, index: usize) -> (more: bool)
        requires
            index <= self@.levels.len(),
        ensures
            more == more_choices(self@.levels, index as int),
    {
        let mut i: usize = index;
        while i < self.levels.len()
            invariant
                index <= i <= self.levels.len(),
                forall|j: int| index <= j < i ==> (#[trigger] self.levels@[j]).1,
            decreases self.levels.len() - i,
        {
            if !self.levels[i].1 {
                assert(!self.levels@[i as int].1);
                return true;
            }
            i += 1;
        }
        false
    }

    /// Starts another execution, or returns `None` when the bound on executions has been reached
    /// or no choice is left at any level.
    pub fn new_execution(&mut self) -> (schedule: Option<Schedule>)
        requires
            old(self).wf(),
            old(self)@.can_start() ==> old(self)@.iterations < usize::MAX,
        ensures
            final(self).wf(),
            schedule is Some <==> old(self)@.can_start(),
            schedule matches Some(s) ==> {
                &&& s.seed == DFS_RANDOM_SEED
                &&& s.steps@.len() == 0
                &&& final(self)@ == old(self)@.started()
            },
            schedule is None ==> final(self)@ == old(self)@,
    {
        if let Some(limit) = self.max_iterations {
            if self.iterations >= limit {
                return None;
            }
        }
        // If there are no more choices to make at any level, we're done.
        if self.iterations > 0 && !self.has_more_choices(0) {
            return None;
        }
        self.iterations = self.iterations + 1;
        self.steps = 0;
        Some(Schedule::new(self.data_source.reinitialize()))
    }

    /// Whether `next_task` can choose among `runnable`. It cannot when the runnable tasks are not
    /// those of the execution before, at the point where the search has to change its choice.
    pub fn can_choose(&self, runnable: &[TaskId]) -> (ok: bool)
        requires
            self.wf(),
        ensures
            ok == self@.can_choose(runnable@),
    {
        if self.steps >= self.levels.len() {
            runnable.len() > 0
        } else if self.has_more_choices(self.steps + 1) {
            true
        } else {
            let (last_choice, was_last) = self.levels[self.steps];
            let found = position(runnable, last_choice);
            !was_last && found < runnable.len() && found + 1 < runnable.len()
        }
    }

    /// The task to run next, out of `runnable`.
    ///
    /// At a new level that is the first one. At a level reached before, the previous choice is
    /// kept while there is more work to do below it; after that the choice changes to the next
    /// runnable task, and what was remembered below is forgotten.
    pub fn next_task(
        &mut self,
        runnable: &[TaskId],
        _current: Option<TaskId>,
        _is_yielding: bool,
    ) -> (task: Option<TaskId>)
        requires
            old(self).wf(),
            old(self)@.can_choose(runnable@),
        ensures
            final(self).wf(),
            task == Some(old(self)@.choice(runnable@)),
            final(self)@ == old(self)@.after_choice(runnable@),
    {
        let next = if self.steps >= self.levels.len() {
            // First time we've reached this level.
            let to_run = runnable[0];
            self.levels.push((to_run, runnable.len() == 1));
            to_run
        } else {
            let (last_choice, _) = self.levels[self.steps];
            if self.has_more_choices(self.steps + 1) {
                // Keep the same choice, because there's more work to do somewhere below us.
                last_choice
            } else {
                // Time to make a change at this level.
                let options: usize = runnable.len();
                let next_idx: usize = position(runnable, last_choice) + 1;
                let next = runnable[next_idx];
                self.levels.truncate(self.steps);
                self.levels.push((next, next_idx == options - 1));
                next
            }
        };
        let depth = self.levels.len();
        assert(self.steps < depth);
        self.steps = self.steps + 1;
        Some(next)
    }

    /// The next random value of the current execution.
    pub fn next_u64(&mut self) -> (value: u64)
        requires
            old(self).wf(),
            old(self)@.allow_random_data,
        ensures
            final(self).wf(),
            value == (old(self)@.random)(0),
            final(self)@ == old(self)@.after_draw(),
    {
        self.data_source.next_u64()
    }
}

/// The first position of `task` in `runnable`, or the length if there is none.
fn position(runnable: &[TaskId], task: TaskId) -> (found: usize)
    ensures
        found == first_position(runnable@, task, 0),
        found <= runnable@.len(),
{
    let mut i: usize = 0;
    while i < runnable.len()
        invariant
            i <= runnable@.len(),
            first_position(runnable@, task, 0) == first_position(runnable@, task, i as int),
        decreases runnable@.len() - i,
    {
        if runnable[i] == task {
            return i;
        }
        i += 1;
    }
    i
}

} // verus!
