//! What holds of an execution over any sequence of operations.
//!
//! A run is a sequence of operations of the tasks, of their handles and of the driver. Each of
//! them is one of the functions of this crate, and does here what the contract of that function
//! says.

use vstd::prelude::*;

use crate::future::laws::{driven, law_block_on_drives_to_completion};
use crate::future::{
    join_polled, wrapper_expects, wrapper_step, BlockOnEvent, JoinError, Poll, WrapperAction,
    WrapperEvent, WrapperStage,
};
use crate::runtime::clock::{entry, happened_by, law_happened_by_is_an_order, merged};
use crate::runtime::effects::law_what_a_spawn_does;
use crate::runtime::execution::{CurrentTask, ExecutionView};
use crate::runtime::laws::law_an_unfinished_task_keeps_the_execution_going;
use crate::runtime::task::TaskView;
use crate::runtime::task_id::{Tag, TaskId};
use crate::scheduler::ScheduleStep;

verus! {

/// An execution, with how far the body of each task has come. The main task has no body of this
/// kind; its entry means nothing.
#[verifier::ext_equal]
pub struct System<V, W> {
    pub state: ExecutionView<V, W>,
    pub bodies: Seq<WrapperStage<V>>,
}

/// One operation of a run.
pub enum Op<V, W> {
    /// `ExecutionState::schedule`.
    Schedule,
    /// `ExecutionState::advance` to a task.
    Advance(TaskId),
    /// `ExecutionState::advance` when the scheduler gives the execution up.
    Stop,
    /// `ExecutionState::record_draw`.
    Draw,
    /// `YieldNow::poll`, the first time.
    RequestYield,
    /// `ExecutionState::wake`.
    Wake(TaskId),
    /// `ExecutionState::sleep_unless_woken`, or `block_on` after a poll that was not ready.
    SleepUnlessWoken,
    /// `ExecutionState::block`.
    Block(bool),
    /// `ExecutionState::unblock`.
    Unblock(TaskId),
    /// `ExecutionState::finish`.
    Finish,
    /// `set_tag_for_current_task`.
    SetTag(Tag),
    /// `ExecutionState::init_local`.
    InitLocal(usize),
    /// `spawn`, when it is resumed.
    Spawn,
    /// `Wrapper::poll` of the current task.
    Body(WrapperEvent<V>),
    /// `JoinHandle::poll`.
    Join(TaskId, W),
    /// `JoinHandle::abort`, when it is resumed.
    Abort(TaskId),
    /// `JoinHandle::drop`.
    DropHandle(TaskId),
}

impl<V, W> System<V, W> {
    /// An execution that has not begun.
    pub open spec fn start(
        stack_size: usize,
        seed: u64,
        steps: Seq<ScheduleStep>,
    ) -> System<V, W> {
        System {
            state: ExecutionView::fresh(stack_size, seed, steps),
            bodies: seq![WrapperStage::Idle],
        }
    }

    /// The task `id`.
    pub open spec fn task(self, id: TaskId) -> TaskView<V, W> {
        self.state.task(id)
    }

    /// The body of the task `id`.
    pub open spec fn body(self, id: TaskId) -> WrapperStage<V> {
        self.bodies[id.0 as int]
    }

    /// The task `id` was spawned.
    pub open spec fn is_spawned(self, id: TaskId) -> bool {
        self.state.has(id) && id.0 > 0
    }

    /// The current task is `id`.
    pub open spec fn runs_task(self, id: TaskId) -> bool {
        self.state.is_running() && self.state.me() == id
    }

    /// The operation is possible: what its function requires holds. Beyond that, only a running
    /// task unblocks others, and a spawned task returns only when its body is done.
    pub open spec fn allows(self, op: Op<V, W>) -> bool {
        let state = self.state;
        let me = state.task(state.me());
        match op {
            Op::Schedule => !state.is_finished() && state.context_switches < usize::MAX,
            Op::Advance(id) => !state.is_finished() && state.has(id) && state.task(id).offered(),
            Op::Stop => !state.is_finished(),
            Op::Draw => true,
            Op::RequestYield => true,
            Op::Wake(id) => state.has(id),
            Op::SleepUnlessWoken => state.is_running() && (me.woken || !me.finished()),
            Op::Block(_) => state.is_running() && !me.finished(),
            Op::Unblock(id) => state.is_running() && state.has(id) && !state.task(id).finished(),
            Op::Finish => {
                &&& state.is_running()
                &&& !me.finished()
                &&& state.me().0 > 0 ==> self.body(state.me()) is Done
            },
            Op::SetTag(_) => state.is_running(),
            Op::InitLocal(key) => state.is_running() && !me.locals.keys.contains(key),
            Op::Spawn => state.is_running() && me.clock[state.me().0 as int] < u32::MAX,
            Op::Body(event) => {
                &&& state.is_running()
                &&& state.me().0 > 0
                &&& wrapper_expects(self.body(state.me()), event)
            },
            Op::Join(id, _) => {
                &&& self.is_spawned(id)
                &&& state.task(id).result is None ==> state.is_running() && !state.task(
                    id,
                ).finished()
            },
            Op::Abort(id) => self.is_spawned(id),
            Op::DropHandle(id) => self.is_spawned(id),
        }
    }

    /// The system after the operation.
    pub open spec fn after_op(self, op: Op<V, W>) -> System<V, W> {
        let state = self.state;
        match op {
            Op::Schedule => System { state: state.scheduled(), ..self },
            Op::Advance(id) => System { state: state.advanced(id), ..self },
            Op::Stop => System { state: state.stopped(), ..self },
            Op::Draw => System { state: state.draw_recorded(), ..self },
            Op::RequestYield => System { state: state.yielding(), ..self },
            Op::Wake(id) => System { state: state.woken(id), ..self },
            Op::SleepUnlessWoken => System { state: state.slept(), ..self },
            Op::Block(spurious) => System { state: state.blocked(spurious), ..self },
            Op::Unblock(id) => System { state: state.unblocked(id), ..self },
            Op::Finish => System { state: state.ended(), ..self },
            Op::SetTag(tag) => System { state: state.tagged(tag), ..self },
            Op::InitLocal(key) => System { state: state.local_initialized(key), ..self },
            Op::Spawn => System {
                state: state.spawned(),
                bodies: self.bodies.push(WrapperStage::Idle),
            },
            Op::Body(event) => {
                let (stage, after, _) = wrapper_step(self.body(state.me()), state, event);
                System { state: after, bodies: self.bodies.update(state.me().0 as int, stage) }
            },
            Op::Join(id, waker) => System { state: join_polled(state, id, waker).1, ..self },
            Op::Abort(id) => System { state: state.aborted(id), ..self },
            Op::DropHandle(id) => System { state: state.dropped(id), ..self },
        }
    }

    /// The system after all the operations.
    pub open spec fn after(self, ops: Seq<Op<V, W>>) -> System<V, W>
        decreases ops.len(),
    {
        if ops.len() == 0 {
            self
        } else {
            self.after(ops.drop_last()).after_op(ops.last())
        }
    }

    /// The operations are possible one after the other.
    pub open spec fn runs(self, ops: Seq<Op<V, W>>) -> bool
        decreases ops.len(),
    {
        ops.len() == 0 || {
            &&& self.runs(ops.drop_last())
            &&& self.after(ops.drop_last()).allows(ops.last())
        }
    }

    /// None of the operations is, where it is made, such as `such` says.
    pub open spec fn avoids(
        self,
        ops: Seq<Op<V, W>>,
        such: spec_fn(System<V, W>, Op<V, W>) -> bool,
    ) -> bool
        decreases ops.len(),
    {
        ops.len() == 0 || {
            &&& self.avoids(ops.drop_last(), such)
            &&& !such(self.after(ops.drop_last()), ops.last())
        }
    }

    /// How many of the operations are such as `such` says.
    pub open spec fn count(
        self,
        ops: Seq<Op<V, W>>,
        such: spec_fn(System<V, W>, Op<V, W>) -> bool,
    ) -> nat
        decreases ops.len(),
    {
        if ops.len() == 0 {
            0
        } else {
            self.count(ops.drop_last(), such) + if such(self.after(ops.drop_last()), ops.last()) {
                1nat
            } else {
                0nat
            }
        }
    }

    /// What is true of the system at all times. A spawned task has finished only when its body is
    /// done, and its result is there only then; and only a task whose cancellation was asked for
    /// is cancelled.
    pub open spec fn ok(self) -> bool {
        &&& self.state.wf()
        &&& self.bodies.len() == self.state.tasks.len()
        &&& forall|i: int| 0 < i < self.bodies.len() ==> #[trigger] self.body_ok(i)
    }

    /// What is true of the body of the task `i` at all times.
    pub open spec fn body_ok(self, i: int) -> bool {
        let task = self.state.tasks[i];
        let body = self.bodies[i];
        &&& task.finished() ==> body is Done
        &&& task.result is Some ==> body is Done
        &&& body is Dropping ==> task.aborted
        &&& body matches WrapperStage::Draining(Err(_)) ==> task.aborted
        &&& task.result matches Some(Err(_)) ==> task.aborted
    }
}

#[verifier::rlimit(40)]
proof fn lemma_ok_after_op<V, W>(sys: System<V, W>, op: Op<V, W>)
    requires
        sys.ok(),
        sys.allows(op),
    ensures
        sys.after_op(op).ok(),
        sys.after_op(op).state.tasks.len() >= sys.state.tasks.len(),
{
    let after = sys.after_op(op);
    assert(after.state.wf());
    assert forall|i: int| 0 < i < after.bodies.len() implies #[trigger] after.body_ok(i) by {
        if i < sys.bodies.len() {
            assert(sys.body_ok(i));
        }
    }
}

/// The system stays in order over every run.
pub proof fn law_runs_keep_the_system_in_order<V, W>(sys: System<V, W>, ops: Seq<Op<V, W>>)
    requires
        sys.ok(),
        sys.runs(ops),
    ensures
        sys.after(ops).ok(),
        sys.after(ops).state.tasks.len() >= sys.state.tasks.len(),
    decreases ops.len(),
{
    if ops.len() > 0 {
        law_runs_keep_the_system_in_order(sys, ops.drop_last());
        lemma_ok_after_op(sys.after(ops.drop_last()), ops.last());
    }
}

/// A new execution is in order.
pub proof fn law_a_new_execution_is_in_order<V, W>(
    stack_size: usize,
    seed: u64,
    steps: Seq<ScheduleStep>,
)
    ensures
        System::<V, W>::start(stack_size, seed, steps).ok(),
{
}

/// A task that has finished stays so, whatever is done after that.
pub proof fn law_finished_tasks_stay_finished<V, W>(
    sys: System<V, W>,
    ops: Seq<Op<V, W>>,
    id: TaskId,
)
    requires
        sys.ok(),
        sys.runs(ops),
        sys.state.has(id),
        sys.task(id).finished(),
    ensures
        sys.after(ops).task(id).finished(),
    decreases ops.len(),
{
    if ops.len() > 0 {
        let before = ops.drop_last();
        law_finished_tasks_stay_finished(sys, before, id);
        law_runs_keep_the_system_in_order(sys, before);
    }
}

/// Each scheduling point counts as one context switch, whoever goes on, and nothing else does: the
/// count orders the operations of an execution in time.
pub proof fn law_context_switches_count_scheduling_points<V, W>(
    sys: System<V, W>,
    ops: Seq<Op<V, W>>,
)
    ensures
        sys.after(ops).state.context_switches == sys.state.context_switches + sys.count(
            ops,
            |s: System<V, W>, op: Op<V, W>| op is Schedule,
        ),
    decreases ops.len(),
{
    if ops.len() > 0 {
        law_context_switches_count_scheduling_points(sys, ops.drop_last());
    }
}

/// Ids are given out one after the other and never again: there are as many more tasks as were
/// spawned.
pub proof fn law_task_ids_are_never_reused<V, W>(sys: System<V, W>, ops: Seq<Op<V, W>>)
    requires
        sys.ok(),
        sys.runs(ops),
    ensures
        sys.after(ops).state.tasks.len() == sys.state.tasks.len() + sys.count(
            ops,
            |s: System<V, W>, op: Op<V, W>| op is Spawn,
        ),
    decreases ops.len(),
{
    if ops.len() > 0 {
        law_task_ids_are_never_reused(sys, ops.drop_last());
        law_runs_keep_the_system_in_order(sys, ops.drop_last());
    }
}

#[verifier::rlimit(40)]
proof fn lemma_tag_after_op<V, W>(sys: System<V, W>, op: Op<V, W>, id: TaskId)
    requires
        sys.ok(),
        sys.allows(op),
        sys.state.has(id),
        !(op is SetTag && sys.runs_task(id)),
    ensures
        sys.after_op(op).task(id).tag == sys.task(id).tag,
{
}

/// The tag of a task stays what it is, whatever is done, until the task itself sets another one,
/// and a task that it spawns meanwhile has it too.
#[verifier::rlimit(40)]
pub proof fn law_tags_stay<V, W>(sys: System<V, W>, ops: Seq<Op<V, W>>, id: TaskId)
    requires
        sys.ok(),
        sys.runs(ops),
        sys.state.has(id),
        sys.avoids(
            ops,
            |s: System<V, W>, op: Op<V, W>| op is SetTag && s.runs_task(id),
        ),
    ensures
        sys.after(ops).task(id).tag == sys.task(id).tag,
        sys.after(ops).runs_task(id) ==> sys.after(ops).state.spawned().tasks.last().tag
            == sys.task(id).tag,
    decreases ops.len(),
{
    if ops.len() > 0 {
        law_tags_stay(sys, ops.drop_last(), id);
        law_runs_keep_the_system_in_order(sys, ops.drop_last());
        lemma_tag_after_op(sys.after(ops.drop_last()), ops.last(), id);
    }
}

/// The tag that the task `id` set last, or the one that it had before.
pub open spec fn last_tag<V, W>(sys: System<V, W>, ops: Seq<Op<V, W>>, id: TaskId) -> Tag
    decreases ops.len(),
{
    if ops.len() == 0 {
        sys.state.tasks[id.0 as int].tag
    } else {
        match ops.last() {
            Op::SetTag(tag) if sys.after(ops.drop_last()).runs_task(id) => tag,
            _ => last_tag(sys, ops.drop_last(), id),
        }
    }
}

/// The tag of a task is always the one that it set last, whichever tags it set before and whatever
/// the other tasks do.
pub proof fn law_the_tag_is_the_last_one_set<V, W>(
    sys: System<V, W>,
    ops: Seq<Op<V, W>>,
    id: TaskId,
)
    requires
        sys.ok(),
        sys.runs(ops),
        sys.state.has(id),
    ensures
        sys.after(ops).state.tasks[id.0 as int].tag == last_tag(sys, ops, id),
    decreases ops.len(),
{
    if ops.len() > 0 {
        let before = sys.after(ops.drop_last());
        law_the_tag_is_the_last_one_set(sys, ops.drop_last(), id);
        law_runs_keep_the_system_in_order(sys, ops.drop_last());
        if !(ops.last() is SetTag && before.runs_task(id)) {
            lemma_tag_after_op(before, ops.last(), id);
        }
    }
}

/// The decisions that the operations make: which task goes on at each choice, and that a random
/// value is drawn at each draw.
pub open spec fn decisions<V, W>(ops: Seq<Op<V, W>>) -> Seq<ScheduleStep>
    decreases ops.len(),
{
    if ops.len() == 0 {
        Seq::empty()
    } else {
        let before = decisions(ops.drop_last());
        match ops.last() {
            Op::Advance(id) => before.push(ScheduleStep::Task(id)),
            Op::Draw => before.push(ScheduleStep::Random),
            _ => before,
        }
    }
}

/// The record of an execution holds the choices and draws that were made, all of them, in order and
/// nothing else, also where the same task is chosen again. Its seed stays.
pub proof fn law_the_record_holds_all_decisions<V, W>(sys: System<V, W>, ops: Seq<Op<V, W>>)
    ensures
        sys.after(ops).state.steps == sys.state.steps + decisions(ops),
        sys.after(ops).state.seed == sys.state.seed,
        sys.after(ops).state.stack_size == sys.state.stack_size,
    decreases ops.len(),
{
    if ops.len() == 0 {
        assert(sys.state.steps + decisions(ops) =~= sys.state.steps);
    } else {
        let before = ops.drop_last();
        law_the_record_holds_all_decisions(sys, before);
        match ops.last() {
            Op::Advance(id) => {
                assert(sys.state.steps + decisions(before).push(ScheduleStep::Task(id)) =~= (
                sys.state.steps + decisions(before)).push(ScheduleStep::Task(id)));
            },
            Op::Draw => {
                assert(sys.state.steps + decisions(before).push(ScheduleStep::Random) =~= (
                sys.state.steps + decisions(before)).push(ScheduleStep::Random));
            },
            _ => {},
        }
    }
}

/// Where an execution stands after the operations, given where it stood at first: the task that was
/// chosen last runs, until the scheduler gives up or there is nothing left to run.
pub open spec fn stands_at<V, W>(sys: System<V, W>, ops: Seq<Op<V, W>>) -> CurrentTask
    decreases ops.len(),
{
    if ops.len() == 0 {
        sys.state.current
    } else {
        match ops.last() {
            Op::Advance(id) => CurrentTask::Running(id),
            Op::Stop => CurrentTask::Stopped,
            Op::Schedule if sys.after(ops.drop_last()).state.is_over() => CurrentTask::Finished,
            _ => stands_at(sys, ops.drop_last()),
        }
    }
}

/// Only the task that was chosen last runs: nothing but a choice makes another one run, and nothing
/// but the scheduler giving up or the end of the execution makes none run.
pub proof fn law_the_task_chosen_last_runs<V, W>(sys: System<V, W>, ops: Seq<Op<V, W>>)
    ensures
        sys.after(ops).state.current == stands_at(sys, ops),
    decreases ops.len(),
{
    if ops.len() > 0 {
        law_the_task_chosen_last_runs(sys, ops.drop_last());
    }
}

/// The handle of the task `id` is dropped while the execution is not over.
pub open spec fn is_drop_in_time<V, W>(sys: System<V, W>, op: Op<V, W>, id: TaskId) -> bool {
    &&& op matches Op::DropHandle(other) && other == id
    &&& !(sys.state.current is Stopped)
    &&& !(sys.state.current is Finished)
}

#[verifier::rlimit(40)]
proof fn lemma_detached_after_op<V, W>(sys: System<V, W>, op: Op<V, W>, id: TaskId)
    requires
        sys.ok(),
        sys.allows(op),
        sys.state.has(id),
    ensures
        sys.after_op(op).state.tasks[id.0 as int].detached <==> sys.state.tasks[id.0 as int].detached
            || is_drop_in_time(sys, op, id),
{
}

/// A task is detached exactly if its handle was dropped while the execution was not over, or it was
/// detached before: whatever state the task was in, whatever is done after, and by nothing else.
pub proof fn law_a_task_is_detached_once_its_handle_is_dropped<V, W>(
    sys: System<V, W>,
    ops: Seq<Op<V, W>>,
    id: TaskId,
)
    requires
        sys.ok(),
        sys.runs(ops),
        sys.state.has(id),
    ensures
        sys.after(ops).state.tasks[id.0 as int].detached <==> {
            ||| sys.state.tasks[id.0 as int].detached
            ||| sys.count(ops, |s: System<V, W>, op: Op<V, W>| is_drop_in_time(s, op, id)) > 0
        },
    decreases ops.len(),
{
    if ops.len() > 0 {
        law_a_task_is_detached_once_its_handle_is_dropped(sys, ops.drop_last(), id);
        law_runs_keep_the_system_in_order(sys, ops.drop_last());
        lemma_detached_after_op(sys.after(ops.drop_last()), ops.last(), id);
    }
}

/// The abort of the task `id` is asked for while the execution is not over and the task has not
/// finished.
pub open spec fn is_abort_in_time<V, W>(sys: System<V, W>, op: Op<V, W>, id: TaskId) -> bool {
    &&& is_abort_of(op, id)
    &&& !(sys.state.current is Stopped)
    &&& !(sys.state.current is Finished)
    &&& !(sys.state.tasks[id.0 as int].state is Finished)
}

#[verifier::rlimit(40)]
proof fn lemma_aborted_after_op<V, W>(sys: System<V, W>, op: Op<V, W>, id: TaskId)
    requires
        sys.ok(),
        sys.allows(op),
        sys.state.has(id),
    ensures
        sys.after_op(op).state.tasks[id.0 as int].aborted <==> sys.state.tasks[id.0 as int].aborted
            || is_abort_in_time(sys, op, id),
{
}

/// The abort of a task is remembered exactly if it was asked for in time, and is never forgotten.
pub proof fn law_an_abort_is_remembered<V, W>(sys: System<V, W>, ops: Seq<Op<V, W>>, id: TaskId)
    requires
        sys.ok(),
        sys.runs(ops),
        sys.state.has(id),
    ensures
        sys.after(ops).state.tasks[id.0 as int].aborted <==> {
            ||| sys.state.tasks[id.0 as int].aborted
            ||| sys.count(ops, |s: System<V, W>, op: Op<V, W>| is_abort_in_time(s, op, id)) > 0
        },
    decreases ops.len(),
{
    if ops.len() > 0 {
        law_an_abort_is_remembered(sys, ops.drop_last(), id);
        law_runs_keep_the_system_in_order(sys, ops.drop_last());
        lemma_aborted_after_op(sys.after(ops.drop_last()), ops.last(), id);
    }
}

/// The keys of the local values that the task `id` initializes, in order.
pub open spec fn initialized_by<V, W>(
    sys: System<V, W>,
    ops: Seq<Op<V, W>>,
    id: TaskId,
) -> Seq<usize>
    decreases ops.len(),
{
    if ops.len() == 0 {
        Seq::empty()
    } else {
        let before = initialized_by(sys, ops.drop_last(), id);
        match ops.last() {
            Op::InitLocal(key) if sys.after(ops.drop_last()).runs_task(id) => before.push(key),
            _ => before,
        }
    }
}

#[verifier::rlimit(40)]
proof fn lemma_locals_after_op<V, W>(sys: System<V, W>, op: Op<V, W>, id: TaskId)
    requires
        sys.ok(),
        sys.allows(op),
        sys.state.has(id),
    ensures
        sys.after_op(op).state.tasks[id.0 as int].locals.keys == match op {
            Op::InitLocal(key) if sys.runs_task(id) => sys.state.tasks[id.0 as int].locals.keys.push(
                key,
            ),
            _ => sys.state.tasks[id.0 as int].locals.keys,
        },
        sys.after_op(op).state.tasks[id.0 as int].locals.destroyed >= sys.state.tasks[id.0 as int].locals.destroyed,
{
}

/// The local values of a task are those that it initialized, in that order, whatever other tasks do
/// with theirs; and a value that was handed out to be destroyed does not come back.
pub proof fn law_local_values_are_those_initialized<V, W>(
    sys: System<V, W>,
    ops: Seq<Op<V, W>>,
    id: TaskId,
)
    requires
        sys.ok(),
        sys.runs(ops),
        sys.state.has(id),
    ensures
        ({
            let before = sys.state.tasks[id.0 as int].locals;
            let after = sys.after(ops).state.tasks[id.0 as int].locals;
            &&& after.keys == before.keys + initialized_by(sys, ops, id)
            &&& before.destroyed <= after.destroyed <= after.keys.len()
        }),
    decreases ops.len(),
{
    let start = sys.state.tasks[id.0 as int].locals.keys;
    law_runs_keep_the_system_in_order(sys, ops);
    if ops.len() == 0 {
        assert(start + initialized_by(sys, ops, id) =~= start);
    } else {
        let before = ops.drop_last();
        law_local_values_are_those_initialized(sys, before, id);
        law_runs_keep_the_system_in_order(sys, before);
        lemma_locals_after_op(sys.after(before), ops.last(), id);
        match ops.last() {
            Op::InitLocal(key) => {
                assert(start + initialized_by(sys, before, id).push(key) =~= (start
                    + initialized_by(sys, before, id)).push(key));
            },
            _ => {},
        }
    }
}

/// Nobody knows of more events of a task than the task itself.
pub open spec fn clocks_agree<V, W>(state: ExecutionView<V, W>) -> bool {
    forall|i: int, j: int|
        0 <= i < state.tasks.len() && 0 <= j < state.tasks.len() ==> #[trigger] entry(
            state.tasks[j].clock,
            i,
        ) <= entry(state.tasks[i].clock, i)
}

#[verifier::rlimit(40)]
proof fn lemma_clocks_stay<V, W>(sys: System<V, W>, op: Op<V, W>)
    requires
        sys.ok(),
        sys.allows(op),
        !(op is Spawn),
        !(op is Join),
    ensures
        sys.after_op(op).state.tasks.len() == sys.state.tasks.len(),
        forall|i: int|
            0 <= i < sys.state.tasks.len() ==> (#[trigger] sys.after_op(op).state.tasks[i]).clock
                == sys.state.tasks[i].clock,
{
}

proof fn lemma_clocks_after_op<V, W>(sys: System<V, W>, op: Op<V, W>, id: TaskId)
    requires
        sys.ok(),
        sys.allows(op),
        sys.state.has(id),
        clocks_agree(sys.state),
    ensures
        clocks_agree(sys.after_op(op).state),
        happened_by(sys.state.tasks[id.0 as int].clock, sys.after_op(op).state.tasks[id.0 as int].clock),
        entry(sys.after_op(op).state.tasks[id.0 as int].clock, id.0 as int) == entry(
            sys.state.tasks[id.0 as int].clock,
            id.0 as int,
        ) + if op is Spawn && sys.runs_task(id) {
            1int
        } else {
            0
        },
{
    let before = sys.state;
    let after = sys.after_op(op).state;
    match op {
        Op::Spawn => {
            let me = before.me();
            let n = before.tasks.len() as int;
            let old_clock = before.tasks[me.0 as int].clock;
            law_what_a_spawn_does(before);
            assert forall|i: int| #[trigger] entry(old_clock, i) <= entry(
                after.tasks[me.0 as int].clock,
                i,
            ) by {}
            assert forall|i: int, j: int|
                0 <= i < after.tasks.len() && 0 <= j < after.tasks.len() implies #[trigger] entry(
                after.tasks[j].clock,
                i,
            ) <= entry(after.tasks[i].clock, i) by {
                if j == me.0 || j == n {
                    assert(after.tasks[j].clock == after.tasks[me.0 as int].clock);
                    if i < n {
                        assert(entry(old_clock, i) <= entry(before.tasks[i].clock, i));
                    }
                } else if i < n {
                    assert(entry(before.tasks[j].clock, i) <= entry(before.tasks[i].clock, i));
                }
            }
        },
        Op::Join(other, waker) => {
            if before.tasks[other.0 as int].result is Some && before.is_running() {
                let me = before.me();
                let mine = before.tasks[me.0 as int].clock;
                let theirs = before.tasks[other.0 as int].clock;
                assert(after.tasks[me.0 as int].clock == merged(mine, theirs));
                assert forall|i: int| #[trigger] entry(mine, i) <= entry(merged(mine, theirs), i) by {}
                assert(entry(theirs, me.0 as int) <= entry(mine, me.0 as int));
                assert forall|i: int, j: int|
                    0 <= i < after.tasks.len() && 0 <= j < after.tasks.len() implies #[trigger] entry(
                    after.tasks[j].clock,
                    i,
                ) <= entry(after.tasks[i].clock, i) by {
                    assert(entry(before.tasks[j].clock, i) <= entry(before.tasks[i].clock, i));
                    assert(entry(theirs, i) <= entry(before.tasks[i].clock, i));
                }
            } else {
                assert forall|i: int| 0 <= i < before.tasks.len() implies (
                #[trigger] after.tasks[i]).clock == before.tasks[i].clock by {}
                assert forall|i: int, j: int|
                    0 <= i < after.tasks.len() && 0 <= j < after.tasks.len() implies #[trigger] entry(
                    after.tasks[j].clock,
                    i,
                ) <= entry(after.tasks[i].clock, i) by {
                    assert(entry(before.tasks[j].clock, i) <= entry(before.tasks[i].clock, i));
                }
            }
        },
        _ => {
            lemma_clocks_stay(sys, op);
            assert forall|i: int, j: int|
                0 <= i < after.tasks.len() && 0 <= j < after.tasks.len() implies #[trigger] entry(
                after.tasks[j].clock,
                i,
            ) <= entry(after.tasks[i].clock, i) by {
                assert(entry(before.tasks[j].clock, i) <= entry(before.tasks[i].clock, i));
            }
        },
    }
}

/// What a task knows it never forgets, and its own counter counts the tasks that it has spawned;
/// nobody knows of more events of a task than the task itself.
pub proof fn law_clocks_only_grow<V, W>(sys: System<V, W>, ops: Seq<Op<V, W>>, id: TaskId)
    requires
        sys.ok(),
        sys.runs(ops),
        sys.state.has(id),
        clocks_agree(sys.state),
    ensures
        ({
            let before = sys.state.tasks[id.0 as int].clock;
            let after = sys.after(ops).state.tasks[id.0 as int].clock;
            &&& clocks_agree(sys.after(ops).state)
            &&& happened_by(before, after)
            &&& entry(after, id.0 as int) == entry(before, id.0 as int) + sys.count(
                ops,
                |s: System<V, W>, op: Op<V, W>| op is Spawn && s.runs_task(id),
            )
        }),
    decreases ops.len(),
{
    if ops.len() > 0 {
        let middle = sys.after(ops.drop_last());
        law_clocks_only_grow(sys, ops.drop_last(), id);
        law_runs_keep_the_system_in_order(sys, ops.drop_last());
        lemma_clocks_after_op(middle, ops.last(), id);
        law_happened_by_is_an_order(
            sys.state.tasks[id.0 as int].clock,
            middle.state.tasks[id.0 as int].clock,
            sys.after(ops).state.tasks[id.0 as int].clock,
        );
    }
}

/// At the start of an execution the clocks agree.
pub proof fn law_clocks_agree_at_the_start<V, W>(
    stack_size: usize,
    seed: u64,
    steps: Seq<ScheduleStep>,
)
    ensures
        clocks_agree(System::<V, W>::start(stack_size, seed, steps).state),
{
}

/// The body of the current task publishes what came of it.
pub open spec fn publishes<V, W>(sys: System<V, W>, op: Op<V, W>) -> bool {
    op is Body && sys.after_op(op).body(sys.state.me()) is Done
}

/// The operation can end the sleep of the task `id`: it wakes it, by its waker, by an abort, or
/// because a task that it waits for ends; or it lets it go on from a synchronization operation; or
/// the task itself, still running, blocks or returns.
pub open spec fn ends_sleep<V, W>(sys: System<V, W>, op: Op<V, W>, id: TaskId) -> bool {
    match op {
        Op::Wake(other) => other == id,
        Op::Abort(other) => other == id,
        Op::Unblock(other) => other == id,
        Op::Block(_) => sys.runs_task(id),
        Op::Finish => sys.runs_task(id),
        Op::Body(_) => publishes(sys, op) && sys.task(sys.state.me()).waiter == Some(id),
        _ => false,
    }
}

/// A task that sleeps does so, and is not offered to the scheduler, until it is woken or let go
/// on, whatever else is done.
pub proof fn law_sleep_lasts_until_it_is_ended<V, W>(
    sys: System<V, W>,
    ops: Seq<Op<V, W>>,
    id: TaskId,
)
    requires
        sys.ok(),
        sys.runs(ops),
        sys.state.has(id),
        sys.task(id).state is Sleeping,
        sys.avoids(ops, |s: System<V, W>, op: Op<V, W>| ends_sleep(s, op, id)),
    ensures
        sys.after(ops).task(id).state is Sleeping,
        !sys.after(ops).task(id).offered(),
    decreases ops.len(),
{
    if ops.len() > 0 {
        let before = sys.after(ops.drop_last());
        law_sleep_lasts_until_it_is_ended(sys, ops.drop_last(), id);
        law_runs_keep_the_system_in_order(sys, ops.drop_last());
        assert(!ends_sleep(before, ops.last(), id));
    }
}

/// A task that waits for the task `id` stays registered there, with the waker of its poll,
/// whatever any task does, until the handle is polled again or the task `id` ends.
#[verifier::rlimit(40)]
pub proof fn law_a_waiter_stays_registered<V, W>(
    sys: System<V, W>,
    ops: Seq<Op<V, W>>,
    id: TaskId,
)
    requires
        sys.ok(),
        sys.runs(ops),
        sys.is_spawned(id),
        sys.avoids(
            ops,
            |s: System<V, W>, op: Op<V, W>|
                {
                    ||| op matches Op::Join(other, _) && other == id
                    ||| publishes(s, op) && s.runs_task(id)
                },
        ),
    ensures
        sys.after(ops).task(id).waiter == sys.task(id).waiter,
        sys.after(ops).task(id).waker == sys.task(id).waker,
    decreases ops.len(),
{
    if ops.len() > 0 {
        law_a_waiter_stays_registered(sys, ops.drop_last(), id);
        law_runs_keep_the_system_in_order(sys, ops.drop_last());
    }
}

/// A task that was woken is not asleep, whatever is done, until it is about to sleep again.
#[verifier::rlimit(40)]
proof fn lemma_woken_stays<V, W>(sys: System<V, W>, ops: Seq<Op<V, W>>, id: TaskId)
    requires
        sys.ok(),
        sys.runs(ops),
        sys.state.has(id),
        sys.task(id).woken,
        !(sys.task(id).state is Sleeping),
        sys.avoids(
            ops,
            |s: System<V, W>, op: Op<V, W>| op is SleepUnlessWoken && s.runs_task(id),
        ),
    ensures
        sys.after(ops).task(id).woken,
        !(sys.after(ops).task(id).state is Sleeping),
    decreases ops.len(),
{
    if ops.len() > 0 {
        lemma_woken_stays(sys, ops.drop_last(), id);
        law_runs_keep_the_system_in_order(sys, ops.drop_last());
    }
}

/// The waker of a poll of a join handle that was not ready is handed out at the end of the task, to
/// be called, whatever is done in between (`waiting`) and whatever has become of the task that
/// polled: only another poll of the handle puts another waker in its place.
pub proof fn law_the_end_of_a_task_hands_out_the_waker<V, W>(
    sys: System<V, W>,
    id: TaskId,
    waker: W,
    waiting: Seq<Op<V, W>>,
    ending: Op<V, W>,
)
    requires
        sys.ok(),
        sys.allows(Op::Join(id, waker)),
        sys.task(id).result is None,
        ({
            let polled = sys.after_op(Op::Join(id, waker));
            let waited = polled.after(waiting);
            &&& polled.runs(waiting)
            &&& polled.avoids(
                waiting,
                |s: System<V, W>, op: Op<V, W>|
                    {
                        ||| op matches Op::Join(other, _) && other == id
                        ||| publishes(s, op) && s.runs_task(id)
                    },
            )
            &&& waited.allows(ending)
            &&& publishes(waited, ending)
            &&& waited.runs_task(id)
        }),
    ensures
        ({
            let waited = sys.after_op(Op::Join(id, waker)).after(waiting);
            &&& join_polled(sys.state, id, waker).0 is Pending
            &&& waited.task(id).waiter == Some(sys.state.me())
            &&& wrapper_step(waited.body(id), waited.state, ending->Body_0).2
                == WrapperAction::Ready(Some(waker))
        }),
{
    let polled = sys.after_op(Op::Join(id, waker));
    lemma_ok_after_op(sys, Op::Join(id, waker));
    law_runs_keep_the_system_in_order(polled, waiting);
    law_a_waiter_stays_registered(polled, waiting, id);
}

/// No wakeup is lost between a poll of a join handle that is not ready and the end of the task.
///
/// The current task polls the handle of the task `id`, which is not ready. Then anything may be
/// done (`waiting`), until the task `id` publishes what came of it (`ending`), and after that
/// again anything (`after`), where the waiter has not been about to sleep since. Then it is not
/// asleep, and when it is about to sleep it does not: it polls again.
pub proof fn law_no_join_wakeup_is_lost<V, W>(
    sys: System<V, W>,
    id: TaskId,
    waker: W,
    waiting: Seq<Op<V, W>>,
    ending: Op<V, W>,
    after: Seq<Op<V, W>>,
)
    requires
        sys.ok(),
        sys.allows(Op::Join(id, waker)),
        sys.task(id).result is None,
        ({
            let waiter = sys.state.me();
            let polled = sys.after_op(Op::Join(id, waker));
            let waited = polled.after(waiting);
            let ended = waited.after_op(ending);
            &&& polled.runs(waiting)
            &&& polled.avoids(
                waiting,
                |s: System<V, W>, op: Op<V, W>|
                    {
                        ||| op matches Op::Join(other, _) && other == id
                        ||| publishes(s, op) && s.runs_task(id)
                    },
            )
            &&& waited.allows(ending)
            &&& publishes(waited, ending)
            &&& waited.runs_task(id)
            &&& !waited.task(waiter).finished()
            &&& ended.runs(after)
            &&& ended.avoids(
                after,
                |s: System<V, W>, op: Op<V, W>| op is SleepUnlessWoken && s.runs_task(waiter),
            )
        }),
    ensures
        ({
            let waiter = sys.state.me();
            let polled = sys.after_op(Op::Join(id, waker));
            let waited = polled.after(waiting);
            let end = waited.after_op(ending).after(after);
            &&& !(end.task(waiter).state is Sleeping)
            &&& !(end.task(waiter).sleep_unless_woken().state is Sleeping)
        }),
{
    let waiter = sys.state.me();
    let polled = sys.after_op(Op::Join(id, waker));
    let waited = polled.after(waiting);
    let ended = waited.after_op(ending);
    lemma_ok_after_op(sys, Op::Join(id, waker));
    law_runs_keep_the_system_in_order(polled, waiting);
    law_the_end_of_a_task_hands_out_the_waker(sys, id, waker, waiting, ending);
    lemma_ok_after_op(waited, ending);
    assert(ended.task(waiter).woken);
    lemma_woken_stays(ended, after, waiter);
}

/// Somebody asks for the cancellation of the task `id`.
pub open spec fn is_abort_of<V, W>(op: Op<V, W>, id: TaskId) -> bool {
    op matches Op::Abort(other) && other == id
}

proof fn lemma_not_aborted<V, W>(sys: System<V, W>, ops: Seq<Op<V, W>>, id: TaskId)
    requires
        sys.ok(),
        sys.runs(ops),
        sys.state.has(id) ==> !sys.task(id).aborted,
        sys.avoids(ops, |s: System<V, W>, op: Op<V, W>| is_abort_of(op, id)),
        sys.after(ops).state.has(id),
    ensures
        !sys.after(ops).task(id).aborted,
    decreases ops.len(),
{
    if ops.len() > 0 {
        let before = sys.after(ops.drop_last());
        law_runs_keep_the_system_in_order(sys, ops.drop_last());
        if before.state.has(id) {
            lemma_not_aborted(sys, ops.drop_last(), id);
        }
        assert(!is_abort_of(ops.last(), id));
    }
}

/// A poll of the join handle of a task gives `Cancelled` only if its abort was asked for: in a run
/// without that it does not, whatever else is done.
pub proof fn law_only_aborted_tasks_are_cancelled<V, W>(
    stack_size: usize,
    seed: u64,
    steps: Seq<ScheduleStep>,
    ops: Seq<Op<V, W>>,
    id: TaskId,
    waker: W,
)
    requires
        System::<V, W>::start(stack_size, seed, steps).runs(ops),
        System::<V, W>::start(stack_size, seed, steps).avoids(
            ops,
            |s: System<V, W>, op: Op<V, W>| is_abort_of(op, id),
        ),
        System::<V, W>::start(stack_size, seed, steps).after(ops).is_spawned(id),
    ensures
        join_polled(
            System::<V, W>::start(stack_size, seed, steps).after(ops).state,
            id,
            waker,
        ).0 != Poll::<Result<V, JoinError>>::Ready(Err(JoinError::Cancelled)),
{
    let sys = System::<V, W>::start(stack_size, seed, steps);
    let end = sys.after(ops);
    law_a_new_execution_is_in_order::<V, W>(stack_size, seed, steps);
    law_runs_keep_the_system_in_order(sys, ops);
    lemma_not_aborted(sys, ops, id);
    assert(end.body_ok(id.0 as int));
}

/// The future of the task `id` answers a poll.
pub open spec fn is_answer_of<V, W>(sys: System<V, W>, op: Op<V, W>, id: TaskId) -> bool {
    op is Body && op->Body_0 is FuturePolled && sys.runs_task(id)
}

/// A poll of the handle of the task `id` takes what came of it.
pub open spec fn takes_result<V, W>(sys: System<V, W>, op: Op<V, W>, id: TaskId) -> bool {
    op matches Op::Join(other, _) && other == id && sys.task(id).result is Some
}

/// The handle of the task `id` is dropped, or the scheduler gives up, before the task has finished.
pub open spec fn lets_go_of<V, W>(sys: System<V, W>, op: Op<V, W>, id: TaskId) -> bool {
    &&& !sys.task(id).finished()
    &&& match op {
        Op::Stop => true,
        Op::DropHandle(other) => other == id,
        _ => false,
    }
}

/// The abort of the task `id` is asked for before it is known what comes of it.
pub open spec fn cancels<V, W>(sys: System<V, W>, op: Op<V, W>, id: TaskId) -> bool {
    is_abort_of(op, id) && (sys.body(id) is Idle || sys.body(id) is Polling)
}

/// The task `id` is let go of, or cancelled.
pub open spec fn gives_up_on<V, W>(sys: System<V, W>, op: Op<V, W>, id: TaskId) -> bool {
    lets_go_of(sys, op, id) || cancels(sys, op, id)
}

impl<V, W> System<V, W> {
    /// How often the future of the task `id` has answered a poll.
    pub open spec fn answered(self, ops: Seq<Op<V, W>>, id: TaskId) -> nat {
        self.count(ops, |s: System<V, W>, op: Op<V, W>| is_answer_of(s, op, id))
    }

    /// The future of the task `id` answers its polls by `answers`.
    pub open spec fn answers_by(
        self,
        ops: Seq<Op<V, W>>,
        id: TaskId,
        answers: spec_fn(nat) -> Poll<V>,
    ) -> bool
        decreases ops.len(),
    {
        ops.len() == 0 || {
            let before = self.after(ops.drop_last());
            &&& self.answers_by(ops.drop_last(), id, answers)
            &&& is_answer_of(before, ops.last(), id) ==> ops.last()->Body_0->FuturePolled_0
                == answers(self.answered(ops.drop_last(), id))
        }
    }

    /// What the polls of the handle of the task `id` give, one after the other.
    pub open spec fn joins(self, ops: Seq<Op<V, W>>, id: TaskId) -> Seq<
        Poll<Result<V, JoinError>>,
    >
        decreases ops.len(),
    {
        if ops.len() == 0 {
            Seq::empty()
        } else {
            let before = self.joins(ops.drop_last(), id);
            match ops.last() {
                Op::Join(other, waker) if other == id => before.push(
                    join_polled(self.after(ops.drop_last()).state, id, waker).0,
                ),
                _ => before,
            }
        }
    }

    /// The task `id` was spawned and not polled yet; its handle is held and its abort not asked
    /// for, and the execution goes on.
    pub open spec fn is_new(self, id: TaskId) -> bool {
        &&& self.is_spawned(id)
        &&& self.body(id) is Idle
        &&& !self.task(id).detached
        &&& !self.task(id).aborted
        &&& !self.state.is_finished()
    }
}

/// What came of the task `id` is there once its body is done.
spec fn result_is_there<V, W>(sys: System<V, W>, id: TaskId) -> bool {
    sys.body(id) is Done ==> sys.task(id).result is Some
}

/// It is known that `result` is what comes of the task `id`: its local values are being destroyed,
/// or the result is published, and was perhaps taken.
pub open spec fn is_settled<V, W>(
    sys: System<V, W>,
    id: TaskId,
    result: Result<V, JoinError>,
) -> bool {
    match sys.body(id) {
        WrapperStage::Draining(outcome) => outcome == result,
        WrapperStage::Done => sys.task(id).result is Some ==> sys.task(id).result == Some(result),
        _ => false,
    }
}

#[verifier::rlimit(40)]
proof fn lemma_settled_after_op<V, W>(
    sys: System<V, W>,
    op: Op<V, W>,
    id: TaskId,
    result: Result<V, JoinError>,
)
    requires
        sys.ok(),
        sys.allows(op),
        sys.is_spawned(id),
        is_settled(sys, id, result),
    ensures
        is_settled(sys.after_op(op), id, result),
        !is_answer_of(sys, op, id),
        result_is_there(sys, id) && !takes_result(sys, op, id) ==> result_is_there(
            sys.after_op(op),
            id,
        ),
        op matches Op::Join(other, waker) ==> other == id ==> {
            let polled = join_polled(sys.state, id, waker).0;
            polled is Pending || polled == Poll::Ready(result)
        },
{
    assert(sys.body_ok(id.0 as int));
}

/// What comes of a task is known when its future gives a value, also if its abort was asked for
/// during that poll, or when its future was dropped.
pub proof fn law_a_ready_poll_settles_the_outcome<V, W>(sys: System<V, W>, id: TaskId, value: V)
    requires
        sys.ok(),
        sys.is_spawned(id),
        sys.runs_task(id),
    ensures
        sys.body(id) is Polling ==> is_settled(
            sys.after_op(Op::Body(WrapperEvent::FuturePolled(Poll::Ready(value)))),
            id,
            Ok(value),
        ),
        sys.body(id) is Dropping ==> is_settled(
            sys.after_op(Op::Body(WrapperEvent::FutureDropped)),
            id,
            Err(JoinError::Cancelled),
        ),
{
}

/// What comes of a task does not change once it is known, whatever is done after that: the task
/// may be aborted, let go of or given up. Its future is not polled again, each poll of the handle
/// is not ready or gives that result, and once the body is done the next poll gives it, if none
/// has taken it.
pub proof fn law_a_settled_outcome_stays<V, W>(
    sys: System<V, W>,
    ops: Seq<Op<V, W>>,
    id: TaskId,
    result: Result<V, JoinError>,
    waker: W,
)
    requires
        sys.ok(),
        sys.runs(ops),
        sys.is_spawned(id),
        is_settled(sys, id, result),
    ensures
        ({
            let end = sys.after(ops);
            &&& is_settled(end, id, result)
            &&& sys.answered(ops, id) == 0
            &&& forall|k: int|
                0 <= k < sys.joins(ops, id).len() ==> {
                    ||| #[trigger] sys.joins(ops, id)[k] is Pending
                    ||| sys.joins(ops, id)[k] == Poll::Ready(result)
                }
            &&& (sys.body(id) is Draining || sys.task(id).result is Some) && end.body(id) is Done
                && sys.avoids(ops, |s: System<V, W>, op: Op<V, W>| takes_result(s, op, id))
                ==> join_polled(end.state, id, waker).0 == Poll::Ready(result)
        }),
    decreases ops.len(),
{
    if ops.len() > 0 {
        let before = sys.after(ops.drop_last());
        law_a_settled_outcome_stays(sys, ops.drop_last(), id, result, waker);
        law_runs_keep_the_system_in_order(sys, ops.drop_last());
        lemma_settled_after_op(before, ops.last(), id, result);
    }
}

/// The task `id` is cancelled, or will be when it is polled next.
spec fn is_doomed<V, W>(sys: System<V, W>, id: TaskId) -> bool {
    ||| sys.body(id) is Idle && sys.task(id).aborted
    ||| sys.body(id) is Dropping
    ||| is_settled(sys, id, Err(JoinError::Cancelled))
}

#[verifier::rlimit(40)]
proof fn lemma_doomed_after_op<V, W>(sys: System<V, W>, op: Op<V, W>, id: TaskId)
    requires
        sys.ok(),
        sys.allows(op),
        sys.is_spawned(id),
        is_doomed(sys, id),
    ensures
        is_doomed(sys.after_op(op), id),
        !is_answer_of(sys, op, id),
        result_is_there(sys, id) && !takes_result(sys, op, id) ==> result_is_there(
            sys.after_op(op),
            id,
        ),
        op matches Op::Join(other, waker) ==> other == id ==> {
            let polled = join_polled(sys.state, id, waker).0;
            polled is Pending || polled == Poll::Ready(Err::<V, JoinError>(JoinError::Cancelled))
        },
{
    assert(sys.body_ok(id.0 as int));
    if is_settled(sys, id, Err(JoinError::Cancelled)) {
        lemma_settled_after_op(sys, op, id, Err(JoinError::Cancelled));
    }
}

/// A task whose abort was asked for and which is not in the middle of a poll is cancelled for good,
/// whatever is done after that. Its future is not polled again, each poll of the handle is not
/// ready or gives `Cancelled`, and once the body is done the next poll gives that, if none has yet.
pub proof fn law_an_aborted_task_is_cancelled<V, W>(
    sys: System<V, W>,
    ops: Seq<Op<V, W>>,
    id: TaskId,
    waker: W,
)
    requires
        sys.ok(),
        sys.runs(ops),
        sys.is_spawned(id),
        sys.task(id).aborted,
        sys.body(id) is Idle,
    ensures
        ({
            let end = sys.after(ops);
            &&& sys.answered(ops, id) == 0
            &&& forall|k: int|
                0 <= k < sys.joins(ops, id).len() ==> {
                    ||| #[trigger] sys.joins(ops, id)[k] is Pending
                    ||| sys.joins(ops, id)[k] == Poll::Ready(
                        Err::<V, JoinError>(JoinError::Cancelled),
                    )
                }
            &&& end.task(id).finished() ==> end.body(id) is Done
            &&& end.body(id) is Done && sys.avoids(
                ops,
                |s: System<V, W>, op: Op<V, W>| takes_result(s, op, id),
            ) ==> join_polled(end.state, id, waker).0 == Poll::Ready(
                Err::<V, JoinError>(JoinError::Cancelled),
            )
        }),
{
    lemma_doomed(sys, ops, id);
    law_runs_keep_the_system_in_order(sys, ops);
    assert(sys.after(ops).body_ok(id.0 as int));
}

proof fn lemma_doomed<V, W>(sys: System<V, W>, ops: Seq<Op<V, W>>, id: TaskId)
    requires
        sys.ok(),
        sys.runs(ops),
        sys.is_spawned(id),
        sys.task(id).aborted,
        sys.body(id) is Idle,
    ensures
        is_doomed(sys.after(ops), id),
        sys.answered(ops, id) == 0,
        sys.avoids(ops, |s: System<V, W>, op: Op<V, W>| takes_result(s, op, id))
            ==> result_is_there(sys.after(ops), id),
        forall|k: int|
            0 <= k < sys.joins(ops, id).len() ==> {
                ||| #[trigger] sys.joins(ops, id)[k] is Pending
                ||| sys.joins(ops, id)[k] == Poll::Ready(Err::<V, JoinError>(JoinError::Cancelled))
            },
    decreases ops.len(),
{
    if ops.len() > 0 {
        let before = sys.after(ops.drop_last());
        lemma_doomed(sys, ops.drop_last(), id);
        law_runs_keep_the_system_in_order(sys, ops.drop_last());
        lemma_doomed_after_op(before, ops.last(), id);
    }
}

/// To abort a spawned task that is not in the middle of a poll cancels it for good: from then on
/// its future is not polled, and the handle gives nothing but `Cancelled`.
pub proof fn law_abort_cancels_for_good<V, W>(
    sys: System<V, W>,
    ops: Seq<Op<V, W>>,
    id: TaskId,
    waker: W,
)
    requires
        sys.ok(),
        sys.is_spawned(id),
        sys.body(id) is Idle,
        !sys.state.is_finished(),
        sys.after_op(Op::Abort(id)).runs(ops),
    ensures
        ({
            let aborted = sys.after_op(Op::Abort(id));
            let end = aborted.after(ops);
            &&& aborted.answered(ops, id) == 0
            &&& forall|k: int|
                0 <= k < aborted.joins(ops, id).len() ==> {
                    ||| #[trigger] aborted.joins(ops, id)[k] is Pending
                    ||| aborted.joins(ops, id)[k] == Poll::Ready(
                        Err::<V, JoinError>(JoinError::Cancelled),
                    )
                }
            &&& end.task(id).finished() ==> end.body(id) is Done
            &&& end.body(id) is Done && aborted.avoids(
                ops,
                |s: System<V, W>, op: Op<V, W>| takes_result(s, op, id),
            ) ==> join_polled(end.state, id, waker).0 == Poll::Ready(
                Err::<V, JoinError>(JoinError::Cancelled),
            )
        }),
{
    assert(sys.body_ok(id.0 as int));
    lemma_ok_after_op(sys, Op::Abort(id));
    law_an_aborted_task_is_cancelled(sys.after_op(Op::Abort(id)), ops, id, waker);
}

/// The task `id`, whose future gives `value` after `n` polls that were not ready, has come as far
/// as `answered` polls take it.
spec fn on_its_way<V, W>(
    sys: System<V, W>,
    id: TaskId,
    n: nat,
    value: V,
    answered: nat,
) -> bool {
    let task = sys.task(id);
    &&& sys.is_spawned(id)
    &&& !task.finished() ==> !task.detached
    &&& match sys.body(id) {
        WrapperStage::Idle => answered <= n && !task.aborted,
        WrapperStage::Polling => answered <= n && !task.aborted,
        WrapperStage::Dropping => false,
        WrapperStage::Draining(result) => answered == n + 1 && result == Ok::<V, JoinError>(value),
        WrapperStage::Done => answered == n + 1,
    }
    &&& task.result is Some ==> task.result == Some(Ok::<V, JoinError>(value))
    &&& sys.state.is_finished() ==> !(task.state is Runnable)
}

#[verifier::rlimit(40)]
proof fn lemma_on_its_way_after_op<V, W>(
    sys: System<V, W>,
    op: Op<V, W>,
    id: TaskId,
    n: nat,
    value: V,
    answered: nat,
)
    requires
        sys.ok(),
        sys.allows(op),
        on_its_way(sys, id, n, value, answered),
        !gives_up_on(sys, op, id),
        is_answer_of(sys, op, id) && answered < n ==> op->Body_0->FuturePolled_0 is Pending,
        is_answer_of(sys, op, id) && answered == n ==> op->Body_0->FuturePolled_0 == Poll::Ready(
            value,
        ),
    ensures
        on_its_way(
            sys.after_op(op),
            id,
            n,
            value,
            if is_answer_of(sys, op, id) {
                answered + 1
            } else {
                answered
            },
        ),
        result_is_there(sys, id) && !takes_result(sys, op, id) ==> result_is_there(
            sys.after_op(op),
            id,
        ),
        op matches Op::Join(other, waker) ==> other == id ==> {
            let polled = join_polled(sys.state, id, waker).0;
            polled is Pending || polled == Poll::Ready(Ok::<V, JoinError>(value))
        },
{
    assert(sys.body_ok(id.0 as int));
    if op is Schedule {
        if !sys.task(id).finished() {
            law_an_unfinished_task_keeps_the_execution_going(sys.state, id);
        }
    } else if op is Body {
        assert(sys.body_ok(sys.state.me().0 as int));
    }
}

proof fn lemma_on_its_way<V, W>(
    sys: System<V, W>,
    ops: Seq<Op<V, W>>,
    id: TaskId,
    answers: spec_fn(nat) -> Poll<V>,
    n: nat,
    value: V,
)
    requires
        sys.ok(),
        sys.runs(ops),
        sys.is_new(id),
        sys.answers_by(ops, id, answers),
        forall|i: nat| i < n ==> #[trigger] answers(i) is Pending,
        answers(n) == Poll::Ready(value),
        sys.avoids(ops, |s: System<V, W>, op: Op<V, W>| gives_up_on(s, op, id)),
    ensures
        on_its_way(sys.after(ops), id, n, value, sys.answered(ops, id)),
        sys.avoids(ops, |s: System<V, W>, op: Op<V, W>| takes_result(s, op, id))
            ==> result_is_there(sys.after(ops), id),
        forall|k: int|
            0 <= k < sys.joins(ops, id).len() ==> {
                ||| #[trigger] sys.joins(ops, id)[k] is Pending
                ||| sys.joins(ops, id)[k] == Poll::Ready(Ok::<V, JoinError>(value))
            },
    decreases ops.len(),
{
    if ops.len() == 0 {
        assert(sys.body_ok(id.0 as int));
    } else {
        let before = sys.after(ops.drop_last());
        let answered = sys.answered(ops.drop_last(), id);
        lemma_on_its_way(sys, ops.drop_last(), id, answers, n, value);
        law_runs_keep_the_system_in_order(sys, ops.drop_last());
        lemma_on_its_way_after_op(before, ops.last(), id, n, value, answered);
    }
}

/// A task that is spawned, and neither aborted nor given up, is run to its end and joined.
///
/// Its future is not ready at its first `n` polls and then gives `value`. It is not aborted before
/// that, and until it has finished its handle is held and the scheduler does not give up; apart
/// from that any task may do anything. Then, at every point:
///
/// - if the execution has ended and the task has not, the task is asleep, so that its waker was
///   not called since its last poll, or blocked: while it can run the execution goes on;
/// - if the task has finished, its future was polled until it gave the value, and not once more;
/// - each poll of the handle is not ready or gives that value;
/// - once the body is done, the next poll of the handle gives the value, if none has yet.
pub proof fn law_an_attached_task_is_run_to_its_end_and_joined<V, W>(
    sys: System<V, W>,
    ops: Seq<Op<V, W>>,
    id: TaskId,
    answers: spec_fn(nat) -> Poll<V>,
    n: nat,
    value: V,
    waker: W,
)
    requires
        sys.ok(),
        sys.runs(ops),
        sys.is_new(id),
        sys.answers_by(ops, id, answers),
        forall|i: nat| i < n ==> #[trigger] answers(i) is Pending,
        answers(n) == Poll::Ready(value),
        sys.avoids(ops, |s: System<V, W>, op: Op<V, W>| gives_up_on(s, op, id)),
    ensures
        ({
            let end = sys.after(ops);
            let task = end.task(id);
            &&& end.state.is_finished() ==> {
                ||| task.finished()
                ||| task.state is Sleeping
                ||| task.state is Blocked
            }
            &&& task.state is Runnable ==> !end.state.is_finished() && !end.state.is_over()
            &&& sys.answered(ops, id) <= n + 1
            &&& task.finished() ==> end.body(id) is Done
            &&& end.body(id) is Done ==> sys.answered(ops, id) == n + 1
            &&& forall|k: int|
                0 <= k < sys.joins(ops, id).len() ==> {
                    ||| #[trigger] sys.joins(ops, id)[k] is Pending
                    ||| sys.joins(ops, id)[k] == Poll::Ready(Ok::<V, JoinError>(value))
                }
            &&& end.body(id) is Done && sys.avoids(
                ops,
                |s: System<V, W>, op: Op<V, W>| takes_result(s, op, id),
            ) ==> join_polled(end.state, id, waker).0 == Poll::Ready(Ok::<V, JoinError>(value))
        }),
{
    let end = sys.after(ops);
    lemma_on_its_way(sys, ops, id, answers, n, value);
    law_runs_keep_the_system_in_order(sys, ops);
    assert(end.body_ok(id.0 as int));
    if !end.task(id).finished() {
        law_an_unfinished_task_keeps_the_execution_going(end.state, id);
    }
}

/// The task `id` goes to sleep though its waker was not called, or blocks.
pub open spec fn stalls<V, W>(sys: System<V, W>, op: Op<V, W>, id: TaskId) -> bool {
    &&& sys.runs_task(id)
    &&& op is Block || op is SleepUnlessWoken && !sys.task(id).woken
}

/// An execution does not end before a spawned task has finished whose waker is called whenever its
/// future is not ready, and which does not block: the task can run all the time. Aborting it does
/// not change that.
pub proof fn law_an_execution_does_not_end_before_a_woken_task<V, W>(
    sys: System<V, W>,
    ops: Seq<Op<V, W>>,
    id: TaskId,
)
    requires
        sys.ok(),
        sys.runs(ops),
        sys.is_spawned(id),
        sys.task(id).state is Runnable,
        !sys.task(id).detached,
        !sys.state.is_finished(),
        sys.avoids(ops, |s: System<V, W>, op: Op<V, W>| lets_go_of(s, op, id)),
        sys.avoids(ops, |s: System<V, W>, op: Op<V, W>| stalls(s, op, id)),
    ensures
        ({
            let end = sys.after(ops);
            &&& end.task(id).finished() || end.task(id).state is Runnable
            &&& !end.task(id).finished() ==> !end.task(id).detached && !end.state.is_over()
            &&& end.state.is_finished() ==> end.task(id).finished()
        }),
    decreases ops.len(),
{
    if ops.len() > 0 {
        let before = sys.after(ops.drop_last());
        law_an_execution_does_not_end_before_a_woken_task(sys, ops.drop_last(), id);
        law_runs_keep_the_system_in_order(sys, ops.drop_last());
        assert(!lets_go_of(before, ops.last(), id));
        assert(!stalls(before, ops.last(), id));
        if ops.last() is Schedule && !before.task(id).finished() {
            law_an_unfinished_task_keeps_the_execution_going(before.state, id);
        }
    }
}

proof fn lemma_avoids_less<V, W>(sys: System<V, W>, ops: Seq<Op<V, W>>, id: TaskId)
    requires
        sys.avoids(ops, |s: System<V, W>, op: Op<V, W>| gives_up_on(s, op, id)),
    ensures
        sys.avoids(ops, |s: System<V, W>, op: Op<V, W>| lets_go_of(s, op, id)),
    decreases ops.len(),
{
    if ops.len() > 0 {
        lemma_avoids_less(sys, ops.drop_last(), id);
        assert(!gives_up_on(sys.after(ops.drop_last()), ops.last(), id));
    }
}

/// A spawned future resolves to its value: it is not ready at its first `n` polls and then gives
/// `value`, and its waker is called whenever it is not ready; it is not aborted before that, and
/// until the task has finished its handle is held. Then the execution does not end before the task has finished, and when it has,
/// the handle gives `Ok` of the value.
pub proof fn law_a_spawned_future_resolves_to_its_value<V, W>(
    sys: System<V, W>,
    ops: Seq<Op<V, W>>,
    id: TaskId,
    answers: spec_fn(nat) -> Poll<V>,
    n: nat,
    value: V,
    waker: W,
)
    requires
        sys.ok(),
        sys.runs(ops),
        sys.is_new(id),
        sys.task(id).state is Runnable,
        sys.answers_by(ops, id, answers),
        forall|i: nat| i < n ==> #[trigger] answers(i) is Pending,
        answers(n) == Poll::Ready(value),
        sys.avoids(ops, |s: System<V, W>, op: Op<V, W>| gives_up_on(s, op, id)),
        sys.avoids(ops, |s: System<V, W>, op: Op<V, W>| stalls(s, op, id)),
        sys.avoids(ops, |s: System<V, W>, op: Op<V, W>| takes_result(s, op, id)),
    ensures
        ({
            let end = sys.after(ops);
            &&& end.state.is_finished() ==> end.task(id).finished()
            &&& !end.task(id).finished() ==> end.task(id).offered() && !end.state.is_over()
            &&& end.task(id).finished() ==> {
                &&& sys.answered(ops, id) == n + 1
                &&& join_polled(end.state, id, waker).0 == Poll::Ready(Ok::<V, JoinError>(value))
            }
        }),
{
    law_an_attached_task_is_run_to_its_end_and_joined(sys, ops, id, answers, n, value, waker);
    lemma_avoids_less(sys, ops, id);
    law_an_execution_does_not_end_before_a_woken_task(sys, ops, id);
}

/// To block on a spawned future gives `Ok` of what blocking on the future itself gives.
///
/// The polls of the handle in a run are those that `block_on` makes on the task `me`, the last of
/// which, number `m`, is ready.
pub proof fn law_block_on_a_spawned_future_gives_its_value<V, W>(
    sys: System<V, W>,
    ops: Seq<Op<V, W>>,
    id: TaskId,
    answers: spec_fn(nat) -> Poll<V>,
    n: nat,
    value: V,
    me: TaskId,
    m: nat,
)
    requires
        sys.ok(),
        sys.runs(ops),
        sys.is_new(id),
        sys.answers_by(ops, id, answers),
        forall|i: nat| i < n ==> #[trigger] answers(i) is Pending,
        answers(n) == Poll::Ready(value),
        sys.avoids(ops, |s: System<V, W>, op: Op<V, W>| gives_up_on(s, op, id)),
        m < sys.joins(ops, id).len(),
        sys.joins(ops, id)[m as int] is Ready,
        forall|k: int| 0 <= k < m ==> #[trigger] sys.joins(ops, id)[k] is Pending,
    ensures
        ({
            let joins = |k: nat| sys.joins(ops, id)[k as int];
            let direct = driven(answers, me, BlockOnEvent::Called, Seq::empty(), 0, 2 * n + 2);
            let spawned = driven(joins, me, BlockOnEvent::Called, Seq::empty(), 0, 2 * m + 2);
            &&& direct matches Some(d) && d.value == value
            &&& spawned matches Some(s) && s.value == Ok::<V, JoinError>(value)
        }),
{
    let joins = |k: nat| sys.joins(ops, id)[k as int];
    lemma_on_its_way(sys, ops, id, answers, n, value);
    law_block_on_drives_to_completion(answers, me, n, value);
    assert(joins(m) == sys.joins(ops, id)[m as int]);
    law_block_on_drives_to_completion(joins, me, m, Ok::<V, JoinError>(value));
}

} // verus!
