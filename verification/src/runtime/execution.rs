//! The state of one execution: its tasks, which of them runs, and the decisions made so far.

use vstd::prelude::*;

use crate::future::JoinError;
use crate::runtime::clock::{extended, incremented, merged, VectorClock};
use crate::runtime::task::{Task, TaskState, TaskView};
use crate::runtime::task_id::{Tag, TaskId};
use crate::scheduler::{Schedule, ScheduleStep};

verus! {

/// Where an execution stands.
#[derive(Clone, Copy, Debug, PartialEq, Eq, Structural)]
pub enum CurrentTask {
    /// No task has been chosen yet.
    NotStarted,
    /// The task runs.
    Running(TaskId),
    /// The scheduler gave the execution up.
    Stopped,
    /// There is nothing left to run.
    Finished,
}

/// What there is to decide at a scheduling point.
#[derive(Debug)]
pub enum Offer {
    /// A task is to be chosen among these, in creation order. The flag says that the current task
    /// asked to yield.
    Choose { runnable: Vec<TaskId>, is_yielding: bool },
    /// The execution is over.
    Finished,
    /// No task can run, but somebody still waits for one.
    Deadlock,
}

/// The state of an execution.
#[verifier::ext_equal]
pub struct ExecutionView<V, W> {
    pub tasks: Seq<TaskView<V, W>>,
    pub current: CurrentTask,
    pub yield_requested: bool,
    pub context_switches: nat,
    pub seed: u64,
    pub steps: Seq<ScheduleStep>,
    pub stack_size: usize,
}

impl<V, W> ExecutionView<V, W> {
    /// An execution that has not begun, with the main task.
    pub open spec fn fresh(
        stack_size: usize,
        seed: u64,
        steps: Seq<ScheduleStep>,
    ) -> ExecutionView<V, W> {
        ExecutionView {
            tasks: seq![TaskView::fresh(Tag(0), seq![0u32])],
            current: CurrentTask::NotStarted,
            yield_requested: false,
            context_switches: 0,
            seed,
            steps,
            stack_size,
        }
    }

    /// The task `id` exists.
    pub open spec fn has(self, id: TaskId) -> bool {
        id.0 < self.tasks.len()
    }

    /// The task `id`.
    pub open spec fn task(self, id: TaskId) -> TaskView<V, W> {
        self.tasks[id.0 as int]
    }

    /// The state with `task` in the place of the task `id`.
    pub open spec fn with_task(self, id: TaskId, task: TaskView<V, W>) -> ExecutionView<V, W> {
        ExecutionView { tasks: self.tasks.update(id.0 as int, task), ..self }
    }

    /// Every task knows its own clock entry and none of a task that does not exist, its local
    /// values are in order, and who waits or runs is a task.
    pub open spec fn wf(self) -> bool {
        &&& self.tasks.len() > 0
        &&& forall|i: int|
            0 <= i < self.tasks.len() ==> {
                let task = #[trigger] self.tasks[i];
                &&& i < task.clock.len() <= self.tasks.len()
                &&& task.locals.wf()
                &&& task.waiter matches Some(waiter) ==> self.has(waiter)
            }
        &&& self.current matches CurrentTask::Running(id) ==> self.has(id)
    }

    /// A task is running.
    pub open spec fn is_running(self) -> bool {
        self.current is Running
    }

    /// The task that is running.
    pub open spec fn me(self) -> TaskId {
        self.current->Running_0
    }

    /// The execution is over.
    pub open spec fn is_finished(self) -> bool {
        self.current is Stopped || self.current is Finished
    }

    /// Some task can run of its own accord.
    pub open spec fn any_runnable(self) -> bool {
        exists|i: int| 0 <= i < self.tasks.len() && (#[trigger] self.tasks[i]).state is Runnable
    }

    /// Some task that is still waited for has not finished.
    pub open spec fn any_attached_unfinished(self) -> bool {
        exists|i: int|
            0 <= i < self.tasks.len() && !(#[trigger] self.tasks[i]).finished()
                && !self.tasks[i].detached
    }

    /// Nothing is left to run, or only tasks that nobody waits for.
    pub open spec fn is_over(self) -> bool {
        !self.any_runnable() || !self.any_attached_unfinished()
    }

    /// No task can run, and somebody waits for one that has not finished.
    pub open spec fn is_deadlocked(self) -> bool {
        !self.any_runnable() && self.any_attached_unfinished()
    }

    /// The current task is the last one that anybody waits for, and others are still alive: when
    /// it exits, what is left of those never happens.
    pub open spec fn exit_truncates(self) -> bool {
        &&& self.is_running()
        &&& !self.task(self.me()).detached
        &&& forall|i: int|
            0 <= i < self.tasks.len() && i != self.me().0 ==> (#[trigger] self.tasks[i]).finished()
                || self.tasks[i].detached
        &&& exists|i: int|
            0 <= i < self.tasks.len() && i != self.me().0 && !(#[trigger] self.tasks[i]).finished()
    }

    /// The tasks that the scheduler can choose among the first `n`, in creation order.
    pub open spec fn offered_before(self, n: nat) -> Seq<TaskId>
        decreases n,
    {
        if n == 0 {
            Seq::empty()
        } else if self.tasks[n - 1].offered() {
            self.offered_before((n - 1) as nat).push(TaskId((n - 1) as usize))
        } else {
            self.offered_before((n - 1) as nat)
        }
    }

    /// The tasks that the scheduler can choose, in creation order.
    pub open spec fn offered(self) -> Seq<TaskId> {
        self.offered_before(self.tasks.len())
    }

    /// The state at a scheduling point, when it is known what there is to decide.
    pub open spec fn scheduled(self) -> ExecutionView<V, W> {
        if self.is_over() {
            ExecutionView {
                context_switches: self.context_switches + 1,
                current: CurrentTask::Finished,
                ..self
            }
        } else {
            ExecutionView {
                context_switches: self.context_switches + 1,
                yield_requested: false,
                ..self
            }
        }
    }

    /// The state after the scheduler chose `id`. A blocked task is thereby woken spuriously.
    pub open spec fn advanced(self, id: TaskId) -> ExecutionView<V, W> {
        ExecutionView {
            current: CurrentTask::Running(id),
            steps: self.steps.push(ScheduleStep::Task(id)),
            ..self.with_task(id, TaskView { state: TaskState::Runnable, ..self.task(id) })
        }
    }

    /// The state after the waker of `id` was called. That does nothing to a task that has
    /// finished, nor when the execution is over.
    pub open spec fn woken(self, id: TaskId) -> ExecutionView<V, W> {
        if self.is_finished() || self.task(id).finished() {
            self
        } else {
            self.with_task(id, self.task(id).wake())
        }
    }

    /// The state after a poll of the current task was not ready: it sleeps, unless it was woken.
    pub open spec fn slept(self) -> ExecutionView<V, W> {
        self.with_task(self.me(), self.task(self.me()).sleep_unless_woken())
    }

    /// The state after the current task blocked in a synchronization operation.
    pub open spec fn blocked(self, allow_spurious_wakeups: bool) -> ExecutionView<V, W> {
        self.with_task(
            self.me(),
            TaskView {
                state: TaskState::Blocked { allow_spurious_wakeups },
                ..self.task(self.me())
            },
        )
    }

    /// The state after the task `id` was let go on from its synchronization operation.
    pub open spec fn unblocked(self, id: TaskId) -> ExecutionView<V, W> {
        self.with_task(id, TaskView { state: TaskState::Runnable, ..self.task(id) })
    }

    /// The state after the function of the current task returned.
    pub open spec fn ended(self) -> ExecutionView<V, W> {
        self.with_task(
            self.me(),
            TaskView { state: TaskState::Finished, ..self.task(self.me()) },
        )
    }

    /// The state after the handle of the task `id` was given up. When the execution is over that
    /// does nothing.
    pub open spec fn dropped(self, id: TaskId) -> ExecutionView<V, W> {
        if self.is_finished() {
            self
        } else {
            self.with_task(id, TaskView { detached: true, ..self.task(id) })
        }
    }

    /// The state after the cancellation of the task `id` was asked for. When the execution is over
    /// that does nothing.
    pub open spec fn aborted(self, id: TaskId) -> ExecutionView<V, W> {
        if self.is_finished() {
            self
        } else {
            self.with_task(id, self.task(id).abort())
        }
    }

    /// The state after `tag` was put on the current task.
    pub open spec fn tagged(self, tag: Tag) -> ExecutionView<V, W> {
        self.with_task(self.me(), TaskView { tag, ..self.task(self.me()) })
    }

    /// The state after the current task initialized the local value `key`.
    pub open spec fn local_initialized(self, key: usize) -> ExecutionView<V, W> {
        self.with_task(
            self.me(),
            TaskView {
                locals: self.task(self.me()).locals.initialized(key),
                ..self.task(self.me())
            },
        )
    }

    /// The state after the oldest live local value of the current task was handed out.
    pub open spec fn local_popped(self) -> ExecutionView<V, W> {
        self.with_task(
            self.me(),
            TaskView { locals: self.task(self.me()).locals.popped(), ..self.task(self.me()) },
        )
    }

    /// The state after the decision to draw a random value was recorded.
    pub open spec fn draw_recorded(self) -> ExecutionView<V, W> {
        ExecutionView { steps: self.steps.push(ScheduleStep::Random), ..self }
    }

    /// The state after the current task asked to yield.
    pub open spec fn yielding(self) -> ExecutionView<V, W> {
        ExecutionView { yield_requested: true, ..self }
    }

    /// The state after the scheduler gave the execution up.
    pub open spec fn stopped(self) -> ExecutionView<V, W> {
        ExecutionView { current: CurrentTask::Stopped, ..self }
    }

    /// The clock of a parent and its new child.
    pub open spec fn spawn_clock(self) -> Seq<u32> {
        extended(
            incremented(self.task(self.me()).clock, self.me().0 as int),
            self.tasks.len() + 1,
        )
    }

    /// The state after the current task created another one.
    pub open spec fn spawned(self) -> ExecutionView<V, W> {
        let parent = TaskView { clock: self.spawn_clock(), ..self.task(self.me()) };
        let child = TaskView::fresh(parent.tag, self.spawn_clock());
        ExecutionView {
            tasks: self.tasks.update(self.me().0 as int, parent).push(child),
            ..self
        }
    }

    /// The state after the current task published what came of it and woke who waits for that.
    pub open spec fn published(self, result: Result<V, JoinError>) -> ExecutionView<V, W> {
        let done = self.with_task(
            self.me(),
            TaskView { result: Some(result), waiter: None, waker: None, ..self.task(self.me()) },
        );
        match self.task(self.me()).waiter {
            Some(waiter) if !done.task(waiter).finished() => done.with_task(
                waiter,
                done.task(waiter).wake(),
            ),
            _ => done,
        }
    }

    /// The state after the current task, if there is one, learned of all that happened by the end
    /// of the task `id`.
    pub open spec fn joined(self, id: TaskId) -> ExecutionView<V, W> {
        match self.current {
            CurrentTask::Running(me) => self.with_task(
                me,
                TaskView {
                    clock: merged(self.task(me).clock, self.task(id).clock),
                    ..self.task(me)
                },
            ),
            _ => self,
        }
    }
}

/// The state of one execution, with task outputs of the type `V` and join wakers of the type `W`.
pub struct ExecutionState<V, W> {
    tasks: Vec<Task<V, W>>,
    current: CurrentTask,
    yield_requested: bool,
    context_switches: usize,
    schedule: Schedule,
    stack_size: usize,
}

impl<V, W> View for ExecutionState<V, W> {
    type V = ExecutionView<V, W>;

    closed spec fn view(&self) -> ExecutionView<V, W> {
        ExecutionView {
            tasks: Seq::new(self.tasks@.len(), |i: int| self.tasks@[i]@),
            current: self.current,
            yield_requested: self.yield_requested,
            context_switches: self.context_switches as nat,
            seed: self.schedule.seed,
            steps: self.schedule.steps@,
            stack_size: self.stack_size,
        }
    }
}

impl<V, W> ExecutionState<V, W> {
    /// An execution that has not begun: the main task is there, and `schedule` records what is
    /// decided. Tasks are to have stacks of `stack_size` bytes.
    pub fn new(stack_size: usize, schedule: Schedule) -> (state: Self)
        ensures
            state@ == ExecutionView::<V, W>::fresh(stack_size, schedule.seed, schedule.steps@),
            state@.wf(),
    {
        let mut clock = VectorClock::new();
        clock.extend(TaskId(0));
        assert(clock@ =~= seq![0u32]);
        let mut tasks: Vec<Task<V, W>> = Vec::new();
        tasks.push(Task::new(Tag(0), clock));
        let state = ExecutionState {
            tasks,
            current: CurrentTask::NotStarted,
            yield_requested: false,
            context_switches: 0,
            schedule,
            stack_size,
        };
        assert(state@.tasks =~= seq![TaskView::<V, W>::fresh(Tag(0), seq![0u32])]);
        state
    }

    /// The task that runs, if one does.
    pub fn try_current(&self) -> (current: Option<TaskId>)
        ensures
            current == if self@.is_running() {
                Some(self@.me())
            } else {
                None
            },
    {
        match self.current {
            CurrentTask::Running(id) => Some(id),
            _ => None,
        }
    }

    /// The task that runs.
    pub fn current(&self) -> (me: TaskId)
        requires
            self@.is_running(),
        ensures
            me == self@.me(),
    {
        match self.current {
            CurrentTask::Running(id) => id,
            _ => TaskId(0),
        }
    }

    /// Whether the execution is over.
    pub fn is_finished(&self) -> (finished: bool)
        ensures
            finished == self@.is_finished(),
    {
        matches!(self.current, CurrentTask::Stopped | CurrentTask::Finished)
    }

    /// How many tasks have been created.
    pub fn task_count(&self) -> (n: usize)
        ensures
            n == self@.tasks.len(),
    {
        self.tasks.len()
    }

    /// The number of scheduling points so far.
    pub fn context_switches(&self) -> (n: usize)
        ensures
            n == self@.context_switches,
    {
        self.context_switches
    }

    /// The stack size that tasks are to have.
    pub fn stack_size(&self) -> (size: usize)
        ensures
            size == self@.stack_size,
    {
        self.stack_size
    }

    /// The decisions recorded so far.
    pub fn recorded(&self) -> (schedule: &Schedule)
        ensures
            schedule.seed == self@.seed,
            schedule.steps@ == self@.steps,
    {
        &self.schedule
    }

    /// The task `id`.
    pub fn get(&self, id: TaskId) -> (task: &Task<V, W>)
        requires
            self@.has(id),
        ensures
            task@ == self@.task(id),
    {
        &self.tasks[id.0]
    }

    /// The task `id`, to be changed.
    fn get_mut(&mut self, id: TaskId) -> (task: &mut Task<V, W>)
        requires
            old(self)@.has(id),
        ensures
            task@ == old(self)@.task(id),
            final(self)@ == old(self)@.with_task(id, final(task)@),
    {
        &mut self.tasks[id.0]
    }

    /// A scheduling point: counts it and says what there is to decide. What is chosen goes to
    /// `advance`.
    pub fn schedule(&mut self) -> (offer: Offer)
        requires
            old(self)@.wf(),
            !old(self)@.is_finished(),
            old(self)@.context_switches < usize::MAX,
        ensures
            final(self)@ == old(self)@.scheduled(),
            final(self)@.wf(),
            match offer {
                Offer::Choose { runnable, is_yielding } => {
                    &&& !old(self)@.is_over()
                    &&& runnable@ == old(self)@.offered()
                    &&& is_yielding == old(self)@.yield_requested
                },
                Offer::Finished => old(self)@.is_over() && !old(self)@.is_deadlocked(),
                Offer::Deadlock => old(self)@.is_deadlocked(),
            },
            ({
                let tasks = old(self)@.tasks;
                let runnable = exists|i: int|
                    0 <= i < tasks.len() && (#[trigger] tasks[i]).state is Runnable;
                let awaited = exists|i: int|
                    0 <= i < tasks.len() && !((#[trigger] tasks[i]).state is Finished)
                        && !tasks[i].detached;
                &&& offer is Choose <==> runnable && awaited
                &&& offer is Deadlock <==> !runnable && awaited
            }),
            final(self)@.context_switches == old(self)@.context_switches + 1,
            final(self)@.tasks == old(self)@.tasks,
            final(self)@.steps == old(self)@.steps,
    {
        self.context_switches = self.context_switches + 1;
        let mut runnable: Vec<TaskId> = Vec::new();
        let mut any_runnable: bool = false;
        let mut any_attached_unfinished: bool = false;
        let mut i: usize = 0;
        while i < self.tasks.len()
            invariant
                i <= self.tasks@.len(),
                runnable@ == self@.offered_before(i as nat),
                any_runnable <==> exists|j: int|
                    0 <= j < i && (#[trigger] self@.tasks[j]).state is Runnable,
                any_attached_unfinished <==> exists|j: int|
                    0 <= j < i && !(#[trigger] self@.tasks[j]).finished()
                        && !self@.tasks[j].detached,
            decreases self.tasks@.len() - i,
        {
            let task = &self.tasks[i];
            assert(task@ == self@.tasks[i as int]);
            if task.offered() {
                runnable.push(TaskId(i));
            }
            if let TaskState::Runnable = task.state() {
                any_runnable = true;
            }
            if !task.finished() && !task.detached() {
                any_attached_unfinished = true;
            }
            i += 1;
        }
        assert(self@.tasks == old(self)@.tasks);
        proof {
            lemma_offered_is_of_the_tasks(old(self)@, self@, i as nat);
        }
        if !any_runnable {
            self.current = CurrentTask::Finished;
            if any_attached_unfinished {
                Offer::Deadlock
            } else {
                Offer::Finished
            }
        } else if !any_attached_unfinished {
            self.current = CurrentTask::Finished;
            Offer::Finished
        } else {
            let is_yielding = self.yield_requested;
            self.yield_requested = false;
            Offer::Choose { runnable, is_yielding }
        }
    }

    /// The scheduler made its choice, or gave the execution up.
    pub fn advance(&mut self, choice: Option<TaskId>)
        requires
            old(self)@.wf(),
            !old(self)@.is_finished(),
            choice matches Some(id) ==> old(self)@.has(id) && old(self)@.task(id).offered(),
        ensures
            final(self)@ == match choice {
                Some(id) => old(self)@.advanced(id),
                None => old(self)@.stopped(),
            },
            final(self)@.wf(),
            final(self)@.current == match choice {
                Some(id) => CurrentTask::Running(id),
                None => CurrentTask::Stopped,
            },
            final(self)@.steps == match choice {
                Some(id) => old(self)@.steps.push(ScheduleStep::Task(id)),
                None => old(self)@.steps,
            },
    {
        match choice {
            Some(id) => {
                self.get_mut(id).unblock();
                self.current = CurrentTask::Running(id);
                self.schedule.steps.push(ScheduleStep::Task(id));
            },
            None => {
                self.current = CurrentTask::Stopped;
            },
        }
    }

    /// Records that a random value is drawn.
    pub fn record_draw(&mut self)
        requires
            old(self)@.wf(),
        ensures
            final(self)@ == old(self)@.draw_recorded(),
            final(self)@.wf(),
    {
        self.schedule.steps.push(ScheduleStep::Random);
    }

    /// Tells the scheduler, at the next scheduling point, that the current task wants to yield.
    pub(crate) fn request_yield(&mut self)
        requires
            old(self)@.wf(),
        ensures
            final(self)@ == old(self)@.yielding(),
            final(self)@.wf(),
    {
        self.yield_requested = true;
    }

    /// The waker of the task `id` was called.
    pub fn wake(&mut self, id: TaskId)
        requires
            old(self)@.wf(),
            old(self)@.has(id),
        ensures
            final(self)@ == old(self)@.woken(id),
            final(self)@.wf(),
    {
        if !self.is_finished() && !self.get(id).finished() {
            self.get_mut(id).wake();
        }
    }

    /// Puts the current task to sleep after a poll that was not ready, unless its waker was called
    /// first.
    pub fn sleep_unless_woken(&mut self)
        requires
            old(self)@.wf(),
            old(self)@.is_running(),
            old(self)@.task(old(self)@.me()).woken || !old(self)@.task(old(self)@.me()).finished(),
        ensures
            final(self)@ == old(self)@.slept(),
            final(self)@.wf(),
    {
        let me = self.current();
        self.get_mut(me).sleep_unless_woken();
    }

    /// Blocks the current task in a synchronization operation.
    pub fn block(&mut self, allow_spurious_wakeups: bool)
        requires
            old(self)@.wf(),
            old(self)@.is_running(),
            !old(self)@.task(old(self)@.me()).finished(),
        ensures
            final(self)@ == old(self)@.blocked(allow_spurious_wakeups),
            final(self)@.wf(),
    {
        let me = self.current();
        self.get_mut(me).block(allow_spurious_wakeups);
    }

    /// Lets the task `id` go on from its synchronization operation.
    pub fn unblock(&mut self, id: TaskId)
        requires
            old(self)@.wf(),
            old(self)@.has(id),
            !old(self)@.task(id).finished(),
        ensures
            final(self)@ == old(self)@.unblocked(id),
            final(self)@.wf(),
    {
        self.get_mut(id).unblock();
    }

    /// The function of the current task has returned.
    pub fn finish(&mut self)
        requires
            old(self)@.wf(),
            old(self)@.is_running(),
            !old(self)@.task(old(self)@.me()).finished(),
        ensures
            final(self)@ == old(self)@.ended(),
            final(self)@.wf(),
    {
        let me = self.current();
        self.get_mut(me).finish();
    }

    /// Whether the exit of the current task truncates the execution, and so needs a scheduling
    /// point before it.
    pub fn exit_truncates(&self) -> (truncates: bool)
        requires
            self@.wf(),
        ensures
            truncates == self@.exit_truncates(),
    {
        let me = match self.current {
            CurrentTask::Running(me) => me,
            _ => {
                return false;
            },
        };
        if self.get(me).detached() {
            return false;
        }
        let mut others_alive: bool = false;
        let mut i: usize = 0;
        while i < self.tasks.len()
            invariant
                i <= self.tasks@.len(),
                self@.is_running(),
                me == self@.me(),
                forall|j: int|
                    0 <= j < i && j != me.0 ==> (#[trigger] self@.tasks[j]).finished()
                        || self@.tasks[j].detached,
                others_alive <==> exists|j: int|
                    0 <= j < i && j != me.0 && !(#[trigger] self@.tasks[j]).finished(),
            decreases self.tasks@.len() - i,
        {
            let task = &self.tasks[i];
            assert(task@ == self@.tasks[i as int]);
            if i != me.0 && !task.finished() {
                if !task.detached() {
                    return false;
                }
                others_alive = true;
            }
            i += 1;
        }
        others_alive
    }

    /// Nobody waits for the task `id` any more. When the execution is over that does not matter.
    pub(crate) fn detach(&mut self, id: TaskId)
        requires
            old(self)@.wf(),
            old(self)@.has(id),
        ensures
            final(self)@ == old(self)@.dropped(id),
            final(self)@.wf(),
    {
        if !self.is_finished() {
            self.get_mut(id).detach();
        }
    }

    /// Asks for the cancellation of the task `id`. When the execution is over that does nothing.
    pub(crate) fn abort(&mut self, id: TaskId)
        requires
            old(self)@.wf(),
            old(self)@.has(id),
        ensures
            final(self)@ == old(self)@.aborted(id),
            final(self)@.wf(),
    {
        if !self.is_finished() {
            self.get_mut(id).abort();
        }
    }

    /// Puts `tag` on the current task, and returns the tag it had.
    pub(crate) fn set_tag(&mut self, tag: Tag) -> (previous: Tag)
        requires
            old(self)@.wf(),
            old(self)@.is_running(),
        ensures
            previous == old(self)@.task(old(self)@.me()).tag,
            final(self)@ == old(self)@.tagged(tag),
            final(self)@.wf(),
    {
        let me = self.current();
        self.get_mut(me).set_tag(tag)
    }

    /// Whether the current task can still initialize the local value `key`.
    pub fn can_init_local(&self, key: usize) -> (ok: bool)
        requires
            self@.wf(),
            self@.is_running(),
        ensures
            ok == !self@.task(self@.me()).locals.keys.contains(key),
    {
        let me = self.current();
        self.get(me).can_init_local(key)
    }

    /// The current task initialized the local value `key`.
    pub fn init_local(&mut self, key: usize)
        requires
            old(self)@.wf(),
            old(self)@.is_running(),
            !old(self)@.task(old(self)@.me()).locals.keys.contains(key),
        ensures
            final(self)@ == old(self)@.local_initialized(key),
            final(self)@.wf(),
    {
        let me = self.current();
        self.get_mut(me).init_local(key);
    }

    /// Hands out the oldest local value of the current task that is still alive.
    pub(crate) fn pop_local(&mut self) -> (key: Option<usize>)
        requires
            old(self)@.wf(),
            old(self)@.is_running(),
        ensures
            final(self)@ == old(self)@.local_popped(),
            final(self)@.wf(),
            key == if old(self)@.task(old(self)@.me()).locals.has_live() {
                Some(old(self)@.task(old(self)@.me()).locals.oldest())
            } else {
                None
            },
    {
        let me = self.current();
        self.get_mut(me).pop_local()
    }

    /// Creates a task, which inherits the tag of the current one and what it knows.
    pub(crate) fn spawn_future(&mut self) -> (id: TaskId)
        requires
            old(self)@.wf(),
            old(self)@.is_running(),
            old(self)@.task(old(self)@.me()).clock[old(self)@.me().0 as int] < u32::MAX,
        ensures
            id.0 == old(self)@.tasks.len(),
            final(self)@ == old(self)@.spawned(),
            final(self)@.wf(),
    {
        let me = self.current();
        let id = TaskId(self.tasks.len());
        let tag = self.get(me).tag();
        let clock = self.get_mut(me).count_spawn(me, id);
        self.tasks.push(Task::new(tag, clock));
        assert(self@.tasks =~= old(self)@.spawned().tasks);
        id
    }

    /// Publishes what came of the current task and wakes who waits for it, unless that one has
    /// finished. Returns the waker that the wait was made with.
    pub(crate) fn publish(&mut self, result: Result<V, JoinError>) -> (waker: Option<W>)
        requires
            old(self)@.wf(),
            old(self)@.is_running(),
        ensures
            waker == old(self)@.task(old(self)@.me()).waker,
            final(self)@ == old(self)@.published(result),
            final(self)@.wf(),
    {
        let me = self.current();
        self.get_mut(me).set_result(result);
        let waiter = self.get_mut(me).take_waiter();
        let waker = self.get_mut(me).take_waker();
        if let Some(waiter) = waiter {
            if !self.get(waiter).finished() {
                self.get_mut(waiter).wake();
            }
        }
        waker
    }

    /// Takes what came of the task `id`, if that is known.
    pub(crate) fn take_result(&mut self, id: TaskId) -> (result: Option<Result<V, JoinError>>)
        requires
            old(self)@.wf(),
            old(self)@.has(id),
        ensures
            result == old(self)@.task(id).result,
            final(self)@ == old(self)@.with_task(
                id,
                TaskView { result: None, ..old(self)@.task(id) },
            ),
            final(self)@.wf(),
    {
        self.get_mut(id).take_result()
    }

    /// The current task, if there is one, learns all that happened by the end of the task `id`.
    pub(crate) fn join(&mut self, id: TaskId)
        requires
            old(self)@.wf(),
            old(self)@.has(id),
        ensures
            final(self)@ == old(self)@.joined(id),
            final(self)@.wf(),
    {
        if let CurrentTask::Running(me) = self.current {
            let clock = self.get(id).clock().clone();
            self.get_mut(me).merge_clock(&clock);
        }
    }

    /// The current task waits for the task `id`, to be told by `waker`. Returns whether that task
    /// is still unfinished.
    pub(crate) fn wait_for(&mut self, id: TaskId, waker: W) -> (waits: bool)
        requires
            old(self)@.wf(),
            old(self)@.is_running(),
            old(self)@.has(id),
        ensures
            waits == !old(self)@.task(id).finished(),
            final(self)@ == if waits {
                old(self)@.with_task(
                    id,
                    TaskView {
                        waiter: Some(old(self)@.me()),
                        waker: Some(waker),
                        ..old(self)@.task(id)
                    },
                )
            } else {
                old(self)@
            },
            final(self)@.wf(),
    {
        let me = self.current();
        self.get_mut(id).set_waiter(me, waker)
    }
}

/// What is offered depends on the tasks alone.
proof fn lemma_offered_is_of_the_tasks<V, W>(
    a: ExecutionView<V, W>,
    b: ExecutionView<V, W>,
    n: nat,
)
    requires
        a.tasks == b.tasks,
    ensures
        a.offered_before(n) == b.offered_before(n),
    decreases n,
{
    if n > 0 {
        lemma_offered_is_of_the_tasks(a, b, (n - 1) as nat);
    }
}

} // verus!
