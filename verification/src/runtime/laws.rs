//! What holds of every execution, whatever the tasks do.

use vstd::prelude::*;

use crate::runtime::clock::{entry, happened_by, incremented};
use crate::runtime::execution::ExecutionView;
use crate::runtime::task::TaskView;
use crate::runtime::task_id::TaskId;

verus! {

proof fn lemma_offered_before<V, W>(state: ExecutionView<V, W>, n: nat)
    requires
        n <= state.tasks.len() <= usize::MAX,
    ensures
        forall|id: TaskId| #[trigger]
            state.offered_before(n).contains(id) <==> id.0 < n && state.task(id).offered(),
        forall|a: int, b: int|
            0 <= a < b < state.offered_before(n).len() ==> (#[trigger] state.offered_before(n)[a]).0
                < (#[trigger] state.offered_before(n)[b]).0,
    decreases n,
{
    if n > 0 {
        let before = state.offered_before((n - 1) as nat);
        let now = state.offered_before(n);
        lemma_offered_before(state, (n - 1) as nat);
        assert forall|i: int| 0 <= i < before.len() implies (#[trigger] before[i]).0 < n - 1 by {
            assert(before.contains(before[i]));
        }
        assert forall|id: TaskId| #[trigger] now.contains(id) <==> id.0 < n && state.task(
            id,
        ).offered() by {
            if state.tasks[n - 1].offered() {
                let last = TaskId((n - 1) as usize);
                assert(now[now.len() - 1] == last);
                if now.contains(id) {
                    let i = choose|i: int| 0 <= i < now.len() && now[i] == id;
                    if i < before.len() {
                        assert(before[i] == id);
                        assert(before.contains(id));
                    }
                }
                if before.contains(id) {
                    let i = choose|i: int| 0 <= i < before.len() && before[i] == id;
                    assert(now[i] == id);
                }
                if id.0 == n - 1 {
                    assert(id == last);
                }
            } else {
                assert(now == before);
            }
        }
    }
}

/// The scheduler is offered exactly the tasks that are runnable or can be woken spuriously, each
/// of them once, in creation order.
pub proof fn law_offered_are_the_tasks_that_can_run<V, W>(state: ExecutionView<V, W>)
    requires
        state.tasks.len() <= usize::MAX,
    ensures
        forall|id: TaskId| #[trigger]
            state.offered().contains(id) <==> state.has(id) && state.task(id).offered(),
        state.offered().no_duplicates(),
        forall|a: int, b: int|
            0 <= a < b < state.offered().len() ==> (#[trigger] state.offered()[a]).0 < (
            #[trigger] state.offered()[b]).0,
{
    lemma_offered_before(state, state.tasks.len());
    assert forall|a: int, b: int|
        0 <= a < state.offered().len() && 0 <= b < state.offered().len() && a
            != b implies state.offered()[a] != state.offered()[b] by {
        if a < b {
            assert(state.offered()[a].0 < state.offered()[b].0);
        } else {
            assert(state.offered()[b].0 < state.offered()[a].0);
        }
    }
}

/// While an execution is not over, the scheduler always has a task to choose.
pub proof fn law_scheduler_is_offered_a_task<V, W>(state: ExecutionView<V, W>)
    requires
        state.tasks.len() <= usize::MAX,
        !state.is_over(),
    ensures
        state.offered().len() > 0,
{
    law_offered_are_the_tasks_that_can_run(state);
    let i = choose|i: int| 0 <= i < state.tasks.len() && (#[trigger] state.tasks[i]).state
        is Runnable;
    assert(state.offered().contains(TaskId(i as usize)));
}

/// A deadlock is when no task can run of its own accord while one that has not finished is waited
/// for. Detached tasks do not count: where only they are unfinished the execution is just over.
pub proof fn law_detached_tasks_are_not_waited_for<V, W>(state: ExecutionView<V, W>)
    requires
        forall|i: int|
            0 <= i < state.tasks.len() ==> (#[trigger] state.tasks[i]).finished()
                || state.tasks[i].detached,
    ensures
        state.is_over(),
        !state.is_deadlocked(),
{
}

/// An execution ends of itself, without a deadlock, only when every task that is waited for has
/// finished.
pub proof fn law_an_execution_waits_for_attached_tasks<V, W>(state: ExecutionView<V, W>)
    requires
        !state.is_finished(),
        state.scheduled().is_finished(),
        !state.is_deadlocked(),
    ensures
        forall|i: int|
            0 <= i < state.tasks.len() && !state.tasks[i].detached ==> (
            #[trigger] state.tasks[i]).finished(),
{
}

/// While a task that is waited for has not finished, the execution does not end of itself except in
/// a deadlock; and if that task can run, it goes on.
pub proof fn law_an_unfinished_task_keeps_the_execution_going<V, W>(
    state: ExecutionView<V, W>,
    id: TaskId,
)
    requires
        state.has(id),
        !state.task(id).detached,
        !state.task(id).finished(),
    ensures
        state.is_over() ==> state.is_deadlocked(),
        state.task(id).state is Runnable ==> !state.is_over(),
{
    assert(!state.tasks[id.0 as int].finished());
}

/// When the exit of the current task truncates the execution, then after it the execution is over,
/// and no deadlock, though some task has not finished.
pub proof fn law_a_truncating_exit_ends_the_execution<V, W>(state: ExecutionView<V, W>)
    requires
        state.wf(),
        state.exit_truncates(),
    ensures
        ({
            let after = state.ended();
            &&& after.is_over()
            &&& !after.is_deadlocked()
            &&& exists|i: int| 0 <= i < after.tasks.len() && !(#[trigger] after.tasks[i]).finished()
        }),
{
    let after = state.ended();
    let i = choose|i: int|
        0 <= i < state.tasks.len() && i != state.me().0 && !(#[trigger] state.tasks[i]).finished();
    assert(!after.tasks[i].finished());
    law_detached_tasks_are_not_waited_for(after);
}

/// A new task gets the next id, so ids are never used twice; it starts runnable and attached, with
/// the tag of the task that created it. Of the other tasks nothing changes but the clock of the
/// parent.
pub proof fn law_spawn_adds_one_task<V, W>(state: ExecutionView<V, W>, id: TaskId)
    requires
        state.wf(),
        state.is_running(),
        state.has(id),
    ensures
        state.spawned().tasks.len() == state.tasks.len() + 1,
        state.spawned().tasks.last() == TaskView::<V, W>::fresh(
            state.task(state.me()).tag,
            state.spawn_clock(),
        ),
        state.spawned().task(id) == (TaskView {
            clock: state.spawned().task(id).clock,
            ..state.task(id)
        }),
        id != state.me() ==> state.spawned().task(id) == state.task(id),
        state.spawned().current == state.current,
{
}

/// All that a task knows when it spawns another one has happened by the clocks of both afterwards,
/// and the creation itself is one more event of the parent.
pub proof fn law_spawn_orders_parent_before_child<V, W>(state: ExecutionView<V, W>)
    requires
        state.wf(),
        state.is_running(),
        state.task(state.me()).clock[state.me().0 as int] < u32::MAX,
    ensures
        ({
            let before = state.task(state.me()).clock;
            let parent = state.spawned().task(state.me()).clock;
            let child = state.spawned().tasks.last().clock;
            let me = state.me().0 as int;
            &&& happened_by(before, parent)
            &&& happened_by(before, child)
            &&& entry(child, me) == entry(before, me) + 1
            &&& !happened_by(child, before)
            &&& forall|i: int| i != me ==> #[trigger] entry(child, i) == entry(before, i)
            &&& parent == child
        }),
{
    let before = state.task(state.me()).clock;
    let me = state.me().0 as int;
    let counted = incremented(before, me);
    let child = state.spawn_clock();
    assert forall|i: int| #[trigger] entry(before, i) <= entry(child, i) by {
        if i != me {
            assert(entry(counted, i) == entry(before, i));
        }
    }
    assert(entry(child, me) > entry(before, me));
}

/// A task that takes the result of another one knows all that happened by the end of that one, and
/// all that it knew before.
pub proof fn law_join_orders_the_task_before_its_waiter<V, W>(
    state: ExecutionView<V, W>,
    id: TaskId,
)
    requires
        state.wf(),
        state.is_running(),
        state.has(id),
    ensures
        happened_by(state.task(id).clock, state.joined(id).task(state.me()).clock),
        happened_by(state.task(state.me()).clock, state.joined(id).task(state.me()).clock),
{
}

/// A wake during a poll is not lost: a task whose waker was called does not go to sleep when that
/// poll turns out not to be ready, and one that was asleep can be scheduled again.
pub proof fn law_a_wake_is_not_lost<V, W>(state: ExecutionView<V, W>, id: TaskId)
    requires
        state.has(id),
        !state.is_finished(),
        state.task(id).state is Runnable || state.task(id).state is Sleeping,
    ensures
        state.woken(id).task(id).offered(),
        state.woken(id).task(id).sleep_unless_woken().offered(),
{
}

/// A task that was not ready sleeps, and is not offered to the scheduler, until it is woken.
pub proof fn law_a_pending_task_sleeps_until_woken<V, W>(task: TaskView<V, W>)
    requires
        !task.woken,
    ensures
        task.sleep_unless_woken().state is Sleeping,
        !task.sleep_unless_woken().offered(),
        task.sleep_unless_woken().wake().state is Runnable,
{
}

/// A wake does not unblock a blocked task; it only keeps the next poll that is not ready from
/// putting it to sleep.
pub proof fn law_a_wake_does_not_unblock<V, W>(state: ExecutionView<V, W>, id: TaskId)
    requires
        state.has(id),
        !state.is_finished(),
        state.task(id).state is Blocked,
    ensures
        state.woken(id).task(id).state == state.task(id).state,
        state.woken(id).task(id).woken,
{
}

} // verus!
