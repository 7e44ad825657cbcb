//! What each operation does to an execution, and that it does nothing else.
//!
//! The laws here speak of the plain contents of an execution: the state of each task, its marks and
//! clock, who runs, and what is recorded.

use vstd::prelude::*;

use crate::future::JoinError;
use crate::runtime::clock::{entry, extended, happened_by, incremented, merged};
use crate::runtime::execution::{CurrentTask, ExecutionView};
use crate::runtime::storage::StorageView;
use crate::runtime::task::{TaskState, TaskView};
use crate::runtime::task_id::{Tag, TaskId};
use crate::scheduler::ScheduleStep;

verus! {

/// `after` differs from `before` at most in the task `id`.
pub open spec fn touches_only<V, W>(
    before: ExecutionView<V, W>,
    after: ExecutionView<V, W>,
    id: TaskId,
) -> bool {
    &&& after.tasks.len() == before.tasks.len()
    &&& forall|i: int|
        0 <= i < before.tasks.len() && i != id.0 ==> #[trigger] after.tasks[i] == before.tasks[i]
    &&& after.current == before.current
    &&& after.yield_requested == before.yield_requested
    &&& after.context_switches == before.context_switches
    &&& after.seed == before.seed
    &&& after.steps == before.steps
    &&& after.stack_size == before.stack_size
}

/// The task has just been created: it can run, somebody holds its handle, nobody has waited for
/// it, woken or aborted it, nothing came of it yet, and it has no local values.
pub open spec fn is_untouched<V, W>(task: TaskView<V, W>) -> bool {
    &&& task.state is Runnable
    &&& !task.detached
    &&& !task.aborted
    &&& !task.woken
    &&& task.waiter is None
    &&& task.waker is None
    &&& task.result is None
    &&& task.locals.keys.len() == 0
    &&& task.locals.destroyed == 0
}

/// A new execution has the main task, without a mark and with a clock that has counted nothing. No
/// task has been chosen, and the record is the one that was given.
pub proof fn law_a_new_execution_has_the_main_task<V, W>(
    stack_size: usize,
    seed: u64,
    steps: Seq<ScheduleStep>,
)
    ensures
        ({
            let state = ExecutionView::<V, W>::fresh(stack_size, seed, steps);
            &&& state.tasks.len() == 1
            &&& is_untouched(state.tasks[0])
            &&& state.tasks[0].tag == Tag(0)
            &&& state.tasks[0].clock.len() == 1
            &&& state.tasks[0].clock[0] == 0
            &&& state.current is NotStarted
            &&& !state.yield_requested
            &&& state.context_switches == 0
            &&& state.seed == seed
            &&& state.steps == steps
            &&& state.stack_size == stack_size
        }),
{
}

/// A task runs exactly when one was chosen and the execution has not come to an end since; tasks
/// are found by their position in creation order.
pub proof fn law_who_runs<V, W>(state: ExecutionView<V, W>, id: TaskId)
    ensures
        state.is_running() && state.me() == id <==> state.current == CurrentTask::Running(id),
        state.is_finished() <==> state.current is Stopped || state.current is Finished,
        state.is_running() ==> !state.is_finished(),
        state.has(id) <==> id.0 < state.tasks.len(),
        state.has(id) ==> state.task(id) == state.tasks[id.0 as int],
{
}

/// Each task is in one of three situations: its function has returned, the scheduler may choose it,
/// or it has to be let go on by someone else.
pub proof fn law_who_can_be_chosen<V, W>(task: TaskView<V, W>)
    ensures
        task.finished() <==> task.state is Finished,
        task.state is Runnable ==> task.offered(),
        task.state is Sleeping || task.state is Finished ==> !task.offered(),
        task.state matches TaskState::Blocked { allow_spurious_wakeups } ==> task.offered()
            == allow_spurious_wakeups,
{
}

/// An execution goes on while some task is runnable, detached or not, and some task that is waited
/// for has not finished. It is a deadlock when the latter holds but nothing is runnable, and just
/// over in all other cases.
pub proof fn law_when_an_execution_goes_on<V, W>(state: ExecutionView<V, W>)
    ensures
        ({
            let runnable = exists|i: int|
                0 <= i < state.tasks.len() && (#[trigger] state.tasks[i]).state is Runnable;
            let awaited = exists|i: int|
                0 <= i < state.tasks.len() && !((#[trigger] state.tasks[i]).state is Finished)
                    && !state.tasks[i].detached;
            &&& !state.is_over() <==> runnable && awaited
            &&& state.is_deadlocked() <==> !runnable && awaited
        }),
{
}

/// A runnable task, whoever holds its handle, keeps the execution going for every unfinished task
/// that is waited for: there is a choice, and the runnable task is one of the options.
pub proof fn law_a_runnable_task_gets_its_chance<V, W>(
    state: ExecutionView<V, W>,
    runnable: TaskId,
    awaited: TaskId,
)
    requires
        state.tasks.len() <= usize::MAX,
        runnable.0 < state.tasks.len(),
        state.tasks[runnable.0 as int].state is Runnable,
        awaited.0 < state.tasks.len(),
        !(state.tasks[awaited.0 as int].state is Finished),
        !state.tasks[awaited.0 as int].detached,
    ensures
        !state.is_over(),
        !state.is_deadlocked(),
        state.scheduled().current == state.current,
        state.offered().contains(runnable),
{
    assert(state.tasks[runnable.0 as int].state is Runnable);
    assert(!(state.tasks[awaited.0 as int].state is Finished));
    crate::runtime::laws::law_offered_are_the_tasks_that_can_run(state);
    assert(state.task(runnable).offered());
}

/// A scheduling point is counted, and does nothing to any task or to the record. When the execution
/// goes on, the wish to yield has been passed on; otherwise the execution is finished.
pub proof fn law_a_scheduling_point_changes_no_task<V, W>(state: ExecutionView<V, W>)
    ensures
        ({
            let after = state.scheduled();
            &&& after.context_switches == state.context_switches + 1
            &&& after.tasks == state.tasks
            &&& after.steps == state.steps
            &&& after.seed == state.seed
            &&& after.stack_size == state.stack_size
            &&& state.is_over() ==> after.current is Finished
            &&& !state.is_over() ==> after.current == state.current && !after.yield_requested
        }),
{
}

/// The chosen task runs, and its choice is the one step that is added to the record, whoever ran
/// before.
pub proof fn law_a_choice_is_recorded<V, W>(state: ExecutionView<V, W>, id: TaskId)
    requires
        id.0 < state.tasks.len(),
    ensures
        ({
            let after = state.advanced(id);
            &&& after.current == CurrentTask::Running(id)
            &&& after.steps.len() == state.steps.len() + 1
            &&& after.steps.drop_last() == state.steps
            &&& after.steps.last() == ScheduleStep::Task(id)
            &&& after.tasks[id.0 as int] == (TaskView {
                state: TaskState::Runnable,
                ..state.tasks[id.0 as int]
            })
            &&& touches_only(
                state,
                ExecutionView { current: state.current, steps: state.steps, ..after },
                id,
            )
        }),
{
    assert(state.advanced(id).steps.drop_last() =~= state.steps);
}

/// A scheduler that gives up stops the execution as it stands; a draw is recorded by one step; and
/// a wish to yield is kept for the next scheduling point.
pub proof fn law_stopping_drawing_and_yielding<V, W>(state: ExecutionView<V, W>)
    ensures
        state.stopped() == (ExecutionView { current: CurrentTask::Stopped, ..state }),
        state.draw_recorded().steps.len() == state.steps.len() + 1,
        state.draw_recorded().steps.drop_last() == state.steps,
        state.draw_recorded().steps.last() is Random,
        state.draw_recorded() == (ExecutionView { steps: state.draw_recorded().steps, ..state }),
        state.yielding().yield_requested,
        state.yielding() == (ExecutionView { yield_requested: true, ..state }),
{
    assert(state.draw_recorded().steps.drop_last() =~= state.steps);
}

/// A handle that is dropped while the execution is not over detaches its task, whatever the state
/// of the task, and does nothing else to it or to another one. After the end it does nothing.
pub proof fn law_a_dropped_handle_detaches<V, W>(state: ExecutionView<V, W>, id: TaskId)
    requires
        id.0 < state.tasks.len(),
    ensures
        ({
            let after = state.dropped(id);
            let task = state.tasks[id.0 as int];
            let over = state.current is Stopped || state.current is Finished;
            &&& touches_only(state, after, id)
            &&& !over ==> after.tasks[id.0 as int].detached
            &&& over ==> after.tasks[id.0 as int] == task
            &&& (TaskView { detached: task.detached, ..after.tasks[id.0 as int] }) == task
        }),
{
}

/// After a task sets a tag, its tag is the one that was set, whatever it was before, and of two
/// tags the later one stays. Nothing else changes.
pub proof fn law_the_tag_that_was_set_is_there<V, W>(
    state: ExecutionView<V, W>,
    first: Tag,
    second: Tag,
)
    requires
        state.wf(),
        state.current is Running,
    ensures
        ({
            let me = state.current->Running_0;
            let task = state.tasks[me.0 as int];
            &&& state.tagged(first).tasks[me.0 as int].tag == first
            &&& state.tagged(first).tagged(second).tasks[me.0 as int].tag == second
            &&& touches_only(state, state.tagged(first), me)
            &&& (TaskView { tag: task.tag, ..state.tagged(first).tasks[me.0 as int] }) == task
        }),
{
}

/// A wake is remembered and lets a task that sleeps run. It leaves every other state as it is, and
/// does nothing to a task that has finished or when the execution is over.
pub proof fn law_what_a_wake_does<V, W>(state: ExecutionView<V, W>, id: TaskId)
    requires
        id.0 < state.tasks.len(),
    ensures
        ({
            let before = state.tasks[id.0 as int];
            let after = state.woken(id).tasks[id.0 as int];
            let late = state.current is Stopped || state.current is Finished || before.state
                is Finished;
            &&& touches_only(state, state.woken(id), id)
            &&& late ==> after == before
            &&& !late ==> after.woken
            &&& !late && before.state is Sleeping ==> after.state is Runnable
            &&& !(before.state is Sleeping) ==> after.state == before.state
            &&& (TaskView { woken: before.woken, state: before.state, ..after }) == before
        }),
{
}

/// A task whose poll was not ready sleeps, if its waker was not called since it last was about to
/// sleep, and stays as it is if it was; either way the next sleep takes another wake.
pub proof fn law_what_not_being_ready_does<V, W>(state: ExecutionView<V, W>)
    requires
        state.wf(),
        state.current is Running,
    ensures
        ({
            let me = state.current->Running_0;
            let before = state.tasks[me.0 as int];
            let after = state.slept().tasks[me.0 as int];
            &&& touches_only(state, state.slept(), me)
            &&& !before.woken ==> after.state is Sleeping
            &&& before.woken ==> after.state == before.state
            &&& !after.woken
            &&& state.slept().slept().tasks[me.0 as int].state is Sleeping
            &&& (TaskView { woken: before.woken, state: before.state, ..after }) == before
        }),
{
}

/// A task that blocks is blocked in the way that was asked for until it is let go on, and then it is
/// as it was, but runnable. A task whose function returns is finished. Nothing else changes.
pub proof fn law_blocking_unblocking_and_returning<V, W>(
    state: ExecutionView<V, W>,
    spurious: bool,
    id: TaskId,
)
    requires
        state.wf(),
        state.current is Running,
        id.0 < state.tasks.len(),
    ensures
        ({
            let me = state.current->Running_0;
            let task = state.tasks[me.0 as int];
            let blocked = state.blocked(spurious);
            &&& touches_only(state, blocked, me)
            &&& blocked.tasks[me.0 as int].state == (TaskState::Blocked {
                allow_spurious_wakeups: spurious,
            })
            &&& (TaskView { state: task.state, ..blocked.tasks[me.0 as int] }) == task
            &&& blocked.tasks[me.0 as int].offered() <==> spurious
            &&& blocked.unblocked(me).tasks[me.0 as int] == (TaskView {
                state: TaskState::Runnable,
                ..task
            })
            &&& touches_only(state, state.ended(), me)
            &&& state.ended().tasks[me.0 as int] == (TaskView {
                state: TaskState::Finished,
                ..task
            })
        }),
        touches_only(state, state.unblocked(id), id),
        state.unblocked(id).tasks[id.0 as int] == (TaskView {
            state: TaskState::Runnable,
            ..state.tasks[id.0 as int]
        }),
{
}

/// An abort is remembered and wakes the task, so that its next poll sees it. It does nothing to a
/// task that has finished or when the execution is over, and nothing to any other task.
pub proof fn law_what_an_abort_does<V, W>(state: ExecutionView<V, W>, id: TaskId)
    requires
        id.0 < state.tasks.len(),
    ensures
        ({
            let before = state.tasks[id.0 as int];
            let after = state.aborted(id).tasks[id.0 as int];
            let late = state.current is Stopped || state.current is Finished || before.state
                is Finished;
            &&& touches_only(state, state.aborted(id), id)
            &&& late ==> after == before
            &&& !late ==> after.aborted && after.woken
            &&& !late && before.state is Sleeping ==> after.state is Runnable
            &&& !(before.state is Sleeping) ==> after.state == before.state
            &&& (TaskView {
                aborted: before.aborted,
                woken: before.woken,
                state: before.state,
                ..after
            }) == before
        }),
{
}

/// A local value that was initialized comes last, and is handed out after all that were there
/// before; what is handed out is the oldest one that was not handed out yet, and never again.
pub proof fn law_local_values_are_first_in_first_out(storage: StorageView, key: usize)
    requires
        storage.destroyed <= storage.keys.len(),
    ensures
        storage.wf() <==> {
            &&& storage.destroyed <= storage.keys.len()
            &&& forall|i: int, j: int|
                0 <= i < j < storage.keys.len() ==> storage.keys[i] != storage.keys[j]
        },
        storage.has_live() <==> storage.destroyed < storage.keys.len(),
        storage.has_live() ==> storage.oldest() == storage.keys[storage.destroyed as int],
        storage.has_live() ==> storage.popped().destroyed == storage.destroyed + 1,
        !storage.has_live() ==> storage.popped().destroyed == storage.destroyed,
        storage.popped().keys == storage.keys,
        storage.initialized(key).keys.len() == storage.keys.len() + 1,
        storage.initialized(key).keys.drop_last() == storage.keys,
        storage.initialized(key).keys.last() == key,
        storage.initialized(key).destroyed == storage.destroyed,
        storage.initialized(key).has_live(),
        storage.has_live() ==> storage.initialized(key).oldest() == storage.oldest(),
        !storage.has_live() ==> storage.initialized(key).oldest() == key,
{
    assert(storage.initialized(key).keys.drop_last() =~= storage.keys);
    if storage.wf() {
        assert forall|i: int, j: int| 0 <= i < j < storage.keys.len() implies storage.keys[i]
            != storage.keys[j] by {
            assert(storage.keys.no_duplicates());
        }
    }
}

/// To initialize a local value or to hand one out concerns the local values of the current task
/// and nothing else.
pub proof fn law_local_values_are_of_the_task<V, W>(state: ExecutionView<V, W>, key: usize)
    requires
        state.wf(),
        state.current is Running,
    ensures
        ({
            let me = state.current->Running_0;
            let task = state.tasks[me.0 as int];
            let grown = state.local_initialized(key);
            let shrunk = state.local_popped();
            &&& touches_only(state, grown, me)
            &&& touches_only(state, shrunk, me)
            &&& grown.tasks[me.0 as int].locals.keys == task.locals.keys.push(key)
            &&& grown.tasks[me.0 as int].locals.destroyed == task.locals.destroyed
            &&& shrunk.tasks[me.0 as int].locals.keys == task.locals.keys
            &&& shrunk.tasks[me.0 as int].locals.destroyed == if task.locals.destroyed
                < task.locals.keys.len() {
                task.locals.destroyed + 1
            } else {
                task.locals.destroyed
            }
            &&& (TaskView { locals: task.locals, ..grown.tasks[me.0 as int] }) == task
            &&& (TaskView { locals: task.locals, ..shrunk.tasks[me.0 as int] }) == task
        }),
{
}

/// A clock has a counter for each task that it knows, and 0 for the others. To count an event
/// changes one counter, by one; to make room changes none; and of two clocks together each counter
/// is the larger one.
pub proof fn law_what_clocks_count(a: Seq<u32>, b: Seq<u32>, me: int, n: nat, i: int)
    requires
        0 <= me < a.len(),
        a[me] < u32::MAX,
    ensures
        0 <= i < a.len() ==> entry(a, i) == a[i],
        !(0 <= i < a.len()) ==> entry(a, i) == 0,
        incremented(a, me).len() == a.len(),
        entry(incremented(a, me), me) == a[me] + 1,
        i != me ==> entry(incremented(a, me), i) == entry(a, i),
        extended(a, n).len() == if n <= a.len() {
            a.len()
        } else {
            n
        },
        entry(extended(a, n), i) == entry(a, i),
        merged(a, b).len() == if a.len() <= b.len() {
            b.len()
        } else {
            a.len()
        },
        entry(merged(a, b), i) >= entry(a, i),
        entry(merged(a, b), i) >= entry(b, i),
        entry(merged(a, b), i) == entry(a, i) || entry(merged(a, b), i) == entry(b, i),
{
}

/// One clock is behind another exactly when no counter of it is larger.
pub proof fn law_what_happened_by_means(a: Seq<u32>, b: Seq<u32>)
    ensures
        happened_by(a, b) <==> forall|i: int|
            0 <= i < a.len() ==> #[trigger] a[i] <= if i < b.len() {
                b[i] as int
            } else {
                0
            },
{
    if happened_by(a, b) {
        assert forall|i: int| 0 <= i < a.len() implies #[trigger] a[i] <= if i < b.len() {
            b[i] as int
        } else {
            0
        } by {
            assert(entry(a, i) <= entry(b, i));
        }
    } else {
        let i = choose|i: int| #[trigger] entry(a, i) > entry(b, i);
        assert(a[i] > 0);
    }
}

/// A spawn adds one task, with the tag of the one that spawned it, and leaves the others as they
/// are but for the clock of the parent. Parent and child both know of one more event of the parent
/// and, apart from that, what the parent knew.
pub proof fn law_what_a_spawn_does<V, W>(state: ExecutionView<V, W>)
    requires
        state.wf(),
        state.current is Running,
        state.tasks[state.current->Running_0.0 as int].clock[state.current->Running_0.0 as int]
            < u32::MAX,
    ensures
        ({
            let me = state.current->Running_0;
            let before = state.tasks[me.0 as int];
            let after = state.spawned();
            let parent = after.tasks[me.0 as int];
            let child = after.tasks[state.tasks.len() as int];
            &&& after.tasks.len() == state.tasks.len() + 1
            &&& touches_only(
                state,
                ExecutionView { tasks: after.tasks.take(state.tasks.len() as int), ..after },
                me,
            )
            &&& (TaskView { clock: before.clock, ..parent }) == before
            &&& is_untouched(child)
            &&& child.tag == before.tag
            &&& child.clock == parent.clock
            &&& child.clock.len() == state.tasks.len() + 1
            &&& child.clock[me.0 as int] == before.clock[me.0 as int] + 1
            &&& forall|i: int|
                0 <= i < child.clock.len() && i != me.0 ==> #[trigger] child.clock[i] == if i
                    < before.clock.len() {
                    before.clock[i]
                } else {
                    0u32
                }
        }),
{
}

/// What comes of a task is there once it is published, and is kept until somebody takes it. Who
/// waited does so no more: that task will not sleep before it has polled again, and runs if it was
/// asleep. No other task notices.
pub proof fn law_what_publishing_does<V, W>(
    state: ExecutionView<V, W>,
    result: Result<V, JoinError>,
    other: TaskId,
)
    requires
        state.wf(),
        state.current is Running,
        other.0 < state.tasks.len(),
        other != state.current->Running_0,
    ensures
        ({
            let me = state.current->Running_0;
            let before = state.tasks[me.0 as int];
            let ended = state.published(result).tasks[me.0 as int];
            let old_other = state.tasks[other.0 as int];
            let new_other = state.published(result).tasks[other.0 as int];
            let told = before.waiter == Some(other) && !(old_other.state is Finished);
            &&& touches_only(state, ExecutionView { tasks: state.tasks, ..state.published(result) }, me)
            &&& state.published(result).tasks.len() == state.tasks.len()
            &&& ended.result == Some(result)
            &&& ended.waiter is None
            &&& ended.waker is None
            &&& ended.detached == before.detached
            &&& ended.aborted == before.aborted
            &&& ended.tag == before.tag
            &&& ended.clock == before.clock
            &&& ended.locals == before.locals
            &&& before.waiter != Some(me) ==> ended.state == before.state && ended.woken
                == before.woken
            &&& !told ==> new_other == old_other
            &&& told ==> new_other.woken
            &&& told && old_other.state is Sleeping ==> new_other.state is Runnable
            &&& !(old_other.state is Sleeping) ==> new_other.state == old_other.state
            &&& (TaskView {
                woken: old_other.woken,
                state: old_other.state,
                ..new_other
            }) == old_other
        }),
{
}

/// Who takes the result of a task learns of all that the task knew, and of nothing else; no other
/// task learns anything.
pub proof fn law_what_a_join_does_to_clocks<V, W>(state: ExecutionView<V, W>, id: TaskId, i: int)
    requires
        state.wf(),
        id.0 < state.tasks.len(),
    ensures
        !(state.current is Running) ==> state.joined(id) == state,
        state.current is Running ==> {
            let me = state.current->Running_0;
            let before = state.tasks[me.0 as int];
            let after = state.joined(id).tasks[me.0 as int];
            let known = entry(before.clock, i);
            let learned = entry(state.tasks[id.0 as int].clock, i);
            &&& touches_only(state, state.joined(id), me)
            &&& entry(after.clock, i) == if known < learned {
                learned
            } else {
                known
            }
            &&& (TaskView { clock: before.clock, ..after }) == before
        },
{
}

/// When the current task is about to return, that truncates the execution exactly if the task is
/// waited for, and after it nobody waits for a task that is not done, while some task is not done.
pub proof fn law_when_an_exit_truncates<V, W>(state: ExecutionView<V, W>)
    requires
        state.wf(),
        state.current is Running,
    ensures
        ({
            let me = state.current->Running_0;
            let rest = state.ended();
            state.exit_truncates() <==> {
                &&& !state.tasks[me.0 as int].detached
                &&& forall|i: int|
                    0 <= i < rest.tasks.len() ==> (#[trigger] rest.tasks[i]).state is Finished
                        || rest.tasks[i].detached
                &&& exists|i: int|
                    0 <= i < rest.tasks.len() && !((#[trigger] rest.tasks[i]).state is Finished)
            }
        }),
{
    let me = state.current->Running_0;
    let rest = state.ended();
    if state.exit_truncates() {
        let i = choose|i: int|
            0 <= i < state.tasks.len() && i != me.0 && !(#[trigger] state.tasks[i]).finished();
        assert(!(rest.tasks[i].state is Finished));
        assert forall|i: int| 0 <= i < rest.tasks.len() implies (#[trigger] rest.tasks[i]).state
            is Finished || rest.tasks[i].detached by {
            if i != me.0 {
                assert(rest.tasks[i] == state.tasks[i]);
            }
        }
    }
    if forall|i: int|
        0 <= i < rest.tasks.len() ==> (#[trigger] rest.tasks[i]).state is Finished
            || rest.tasks[i].detached {
        assert forall|i: int| 0 <= i < state.tasks.len() && i != me.0 implies (
        #[trigger] state.tasks[i]).finished() || state.tasks[i].detached by {
            assert(rest.tasks[i] == state.tasks[i]);
        }
    }
    if exists|i: int|
        0 <= i < rest.tasks.len() && !((#[trigger] rest.tasks[i]).state is Finished) {
        let i = choose|i: int|
            0 <= i < rest.tasks.len() && !((#[trigger] rest.tasks[i]).state is Finished);
        assert(i != me.0);
        assert(rest.tasks[i] == state.tasks[i]);
        assert(!state.tasks[i].finished());
    }
}

} // verus!
