//! What holds of tasks that are spawned, awaited, aborted and given up.

use vstd::prelude::*;

use crate::future::{
    block_on_action, join_polled, wrapper_drained, wrapper_step, BlockOnAction, BlockOnEvent,
    JoinError, Poll, WrapperAction, WrapperEvent, WrapperStage,
};
use crate::runtime::clock::entry;
use crate::runtime::effects::touches_only;
use crate::runtime::execution::{CurrentTask, ExecutionView};
use crate::runtime::task::{TaskState, TaskView};
use crate::runtime::task_id::TaskId;

verus! {

/// What a task publishes is what the next poll of its join handle gives, whoever polls.
pub proof fn law_join_gives_what_was_published<V, W>(
    state: ExecutionView<V, W>,
    result: Result<V, JoinError>,
    waker: W,
)
    requires
        state.wf(),
        state.is_running(),
    ensures
        join_polled(state.published(result), state.me(), waker).0 == Poll::Ready(result),
        join_polled(state.published(result), state.me(), waker).1.task(state.me()).result is None,
{
}

/// A poll of a join handle takes the result if it is there: the result is gone then, and the task
/// that polls learns of what the other one knew. If it is not there, the task that polls waits from
/// then on, with the waker of that poll and in place of who waited before. Nothing else changes.
pub proof fn law_what_a_join_poll_does<V, W>(state: ExecutionView<V, W>, id: TaskId, waker: W, i: int)
    requires
        state.wf(),
        id.0 < state.tasks.len(),
    ensures
        ({
            let (poll, after) = join_polled(state, id, waker);
            let before = state.tasks[id.0 as int];
            match before.result {
                Some(result) => {
                    &&& poll == Poll::Ready(result)
                    &&& after.tasks[id.0 as int].result is None
                    &&& !(state.current is Running) ==> {
                        &&& touches_only(state, after, id)
                        &&& (TaskView { result: before.result, ..after.tasks[id.0 as int] })
                            == before
                    }
                    &&& state.current is Running ==> {
                        let me = state.current->Running_0;
                        let mine = state.tasks[me.0 as int];
                        let known = entry(mine.clock, i);
                        let learned = entry(before.clock, i);
                        &&& touches_only(
                            ExecutionView {
                                tasks: state.tasks.update(id.0 as int, after.tasks[id.0 as int]),
                                ..state
                            },
                            after,
                            me,
                        )
                        &&& entry(after.tasks[me.0 as int].clock, i) == if known < learned {
                            learned
                        } else {
                            known
                        }
                        &&& (TaskView {
                            clock: mine.clock,
                            result: mine.result,
                            ..after.tasks[me.0 as int]
                        }) == mine
                        &&& me != id ==> after.tasks[me.0 as int].result == mine.result
                        &&& me != id ==> (TaskView {
                            result: before.result,
                            ..after.tasks[id.0 as int]
                        }) == before
                    }
                },
                None => {
                    &&& poll is Pending
                    &&& touches_only(state, after, id)
                    &&& after.tasks[id.0 as int].waiter == Some(state.me())
                    &&& after.tasks[id.0 as int].waker == Some(waker)
                    &&& (TaskView {
                        waiter: before.waiter,
                        waker: before.waker,
                        ..after.tasks[id.0 as int]
                    }) == before
                },
            }
        }),
{
}

/// A poll of the body of a task goes to its future, unless the abort of the task was asked for:
/// then the future is dropped. A future that is not ready leaves the body as it was.
pub proof fn law_how_a_body_is_polled<V, W>(state: ExecutionView<V, W>, stage: WrapperStage<V>)
    requires
        state.wf(),
        state.current is Running,
    ensures
        ({
            let aborted = state.tasks[state.current->Running_0.0 as int].aborted;
            let (polled, after, action) = wrapper_step(stage, state, WrapperEvent::Poll);
            &&& after == state
            &&& aborted ==> polled is Dropping && action is DropFuture
            &&& !aborted ==> polled is Polling && action is PollFuture
        }),
        ({
            let (polled, after, action) = wrapper_step(
                stage,
                state,
                WrapperEvent::FuturePolled(Poll::Pending),
            );
            polled is Idle && after == state && action is Pending
        }),
{
}

/// The event settles that `result` is what comes of the task: its future gave the value, or was
/// dropped, or this was settled before and one more local value is gone.
pub open spec fn settles<V>(
    stage: WrapperStage<V>,
    event: WrapperEvent<V>,
    result: Result<V, JoinError>,
) -> bool {
    match event {
        WrapperEvent::Poll => false,
        WrapperEvent::FuturePolled(Poll::Pending) => false,
        WrapperEvent::FuturePolled(Poll::Ready(value)) => result == Ok::<V, JoinError>(value),
        WrapperEvent::FutureDropped => result == Err::<V, JoinError>(JoinError::Cancelled),
        WrapperEvent::LocalDropped => stage == WrapperStage::Draining(result),
    }
}

/// When it is settled what comes of a task, its local values are handed out one at a time, the
/// oldest first, while nobody can see the result. When none is left the result is published, and
/// the waker of who waits is handed out.
pub proof fn law_how_a_body_ends<V, W>(
    state: ExecutionView<V, W>,
    stage: WrapperStage<V>,
    event: WrapperEvent<V>,
    result: Result<V, JoinError>,
    waker: W,
)
    requires
        state.wf(),
        state.current is Running,
        settles(stage, event, result),
    ensures
        ({
            let me = state.current->Running_0;
            let before = state.tasks[me.0 as int];
            let (next, after, action) = wrapper_step(stage, state, event);
            if before.locals.destroyed < before.locals.keys.len() {
                &&& next == WrapperStage::Draining(result)
                &&& action == WrapperAction::<W>::DropLocal(
                    before.locals.keys[before.locals.destroyed as int],
                )
                &&& touches_only(state, after, me)
                &&& after.tasks[me.0 as int].locals.keys == before.locals.keys
                &&& after.tasks[me.0 as int].locals.destroyed == before.locals.destroyed + 1
                &&& (TaskView { locals: before.locals, ..after.tasks[me.0 as int] }) == before
            } else {
                &&& next is Done
                &&& action == WrapperAction::Ready(before.waker)
                &&& after.tasks[me.0 as int].result == Some(result)
                &&& after.tasks[me.0 as int].waiter is None
                &&& after.tasks[me.0 as int].waker is None
                &&& join_polled(after, me, waker).0 == Poll::Ready(result)
                &&& forall|i: int|
                    0 <= i < state.tasks.len() && i != me.0 && before.waiter != Some(
                        TaskId(i as usize),
                    ) ==> #[trigger] after.tasks[i] == state.tasks[i]
                &&& before.waiter matches Some(waiter) ==> waiter != me && !(
                state.tasks[waiter.0 as int].state is Finished) ==> {
                    let old_waiter = state.tasks[waiter.0 as int];
                    let new_waiter = after.tasks[waiter.0 as int];
                    &&& new_waiter.woken
                    &&& new_waiter.state == if old_waiter.state is Sleeping {
                        TaskState::Runnable
                    } else {
                        old_waiter.state
                    }
                }
                &&& after == (ExecutionView { tasks: after.tasks, ..state })
            }
        }),
{
    let me = state.current->Running_0;
    let before = state.tasks[me.0 as int];
    let after = wrapper_step(stage, state, event).1;
    if before.locals.destroyed >= before.locals.keys.len() {
        assert forall|i: int|
            0 <= i < state.tasks.len() && i != me.0 && before.waiter != Some(
                TaskId(i as usize),
            ) implies #[trigger] after.tasks[i] == state.tasks[i] by {
            if let Some(waiter) = before.waiter {
                assert(waiter.0 as int != i);
            }
        }
    }
}

/// When a task ends, the one that waits for it is awake if it is not blocked, and will not go to
/// sleep before it has polled again; the waker of its poll is handed out to be called.
pub proof fn law_the_end_of_a_task_wakes_its_waiter<V, W>(
    state: ExecutionView<V, W>,
    waiter: TaskId,
    result: Result<V, JoinError>,
)
    requires
        state.wf(),
        state.is_running(),
        !state.task(state.me()).locals.has_live(),
        state.task(state.me()).waiter == Some(waiter),
        !state.task(waiter).finished(),
    ensures
        ({
            let (stage, ended, action) = wrapper_drained(state, result);
            &&& action == WrapperAction::Ready(state.task(state.me()).waker)
            &&& ended.task(waiter).woken
            &&& !(ended.task(waiter).state is Sleeping)
            &&& !(ended.task(waiter).sleep_unless_woken().state is Sleeping)
            &&& state.task(waiter).state is Blocked ==> ended.task(waiter).state == state.task(
                waiter,
            ).state
        }),
{
}

/// What comes of a task does not change while its local values are destroyed, and it is published
/// when none is left alive.
pub proof fn law_the_outcome_is_published_last<V, W>(
    state: ExecutionView<V, W>,
    result: Result<V, JoinError>,
)
    requires
        state.wf(),
        state.is_running(),
    ensures
        ({
            let (stage, after, action) = wrapper_drained(state, result);
            let locals = state.task(state.me()).locals;
            if locals.has_live() {
                &&& stage == WrapperStage::Draining(result)
                &&& action == WrapperAction::<W>::DropLocal(locals.oldest())
                &&& after.task(after.me()).result == state.task(state.me()).result
            } else {
                &&& stage is Done
                &&& action == WrapperAction::Ready(state.task(state.me()).waker)
                &&& after.task(after.me()).result == Some(result)
            }
        }),
{
}

/// The state of a task whose body ended with `result`, after `n` of its local values were
/// destroyed, if their destruction does nothing else.
pub open spec fn drained<V, W>(
    state: ExecutionView<V, W>,
    result: Result<V, JoinError>,
    n: nat,
) -> ExecutionView<V, W>
    decreases n,
{
    if n == 0 {
        state
    } else {
        wrapper_drained(drained(state, result, (n - 1) as nat), result).1
    }
}

/// The local values of a task are destroyed in the order in which they were initialized, each of
/// them once, and then its result is published.
pub proof fn law_locals_are_destroyed_in_order<V, W>(
    state: ExecutionView<V, W>,
    result: Result<V, JoinError>,
    n: nat,
)
    requires
        state.wf(),
        state.is_running(),
        state.task(state.me()).locals.destroyed + n <= state.task(state.me()).locals.keys.len(),
    ensures
        ({
            let locals = state.task(state.me()).locals;
            let (stage, after, action) = wrapper_drained(drained(state, result, n), result);
            if locals.destroyed + n < locals.keys.len() {
                &&& stage == WrapperStage::Draining(result)
                &&& action == WrapperAction::<W>::DropLocal(
                    locals.keys[(locals.destroyed + n) as int],
                )
            } else {
                &&& stage is Done
                &&& action is Ready
                &&& after.task(state.me()).result == Some(result)
            }
        }),
{
    lemma_drained(state, result, n);
}

proof fn lemma_drained<V, W>(
    state: ExecutionView<V, W>,
    result: Result<V, JoinError>,
    n: nat,
)
    requires
        state.wf(),
        state.is_running(),
        state.task(state.me()).locals.destroyed + n <= state.task(state.me()).locals.keys.len(),
    ensures
        ({
            let locals = state.task(state.me()).locals;
            let after = drained(state, result, n);
            &&& after.current == state.current
            &&& after.tasks.len() == state.tasks.len()
            &&& after.task(state.me()).waiter == state.task(state.me()).waiter
            &&& after.task(state.me()).locals.keys == locals.keys
            &&& after.task(state.me()).locals.destroyed == locals.destroyed + n
        }),
    decreases n,
{
    if n > 0 {
        lemma_drained(state, result, (n - 1) as nat);
    }
}

/// Awaiting a task gives what came of it: the value of its future, or `Cancelled` where the future
/// was dropped. First all its local values are destroyed.
pub proof fn law_awaiting_gives_the_outcome<V, W>(
    state: ExecutionView<V, W>,
    result: Result<V, JoinError>,
    waker: W,
)
    requires
        state.wf(),
        state.is_running(),
    ensures
        ({
            let locals = state.task(state.me()).locals;
            let live = (locals.keys.len() - locals.destroyed) as nat;
            let (stage, ended, action) = wrapper_drained(drained(state, result, live), result);
            &&& stage is Done
            &&& !ended.task(state.me()).locals.has_live()
            &&& join_polled(ended, state.me(), waker).0 == Poll::Ready(result)
        }),
{
    let locals = state.task(state.me()).locals;
    lemma_drained(state, result, (locals.keys.len() - locals.destroyed) as nat);
}

/// An aborted task that is not blocked can be scheduled, and when it is polled next its future is
/// dropped instead of polled, and `Cancelled` is what comes of it. A task that is blocked in a
/// synchronization operation stays blocked.
pub proof fn law_abort_cancels_at_the_next_poll<V, W>(
    state: ExecutionView<V, W>,
    id: TaskId,
)
    requires
        state.wf(),
        state.has(id),
        !state.is_finished(),
        !state.task(id).finished(),
    ensures
        ({
            let aborted = state.aborted(id);
            let running = ExecutionView { current: CurrentTask::Running(id), ..aborted };
            &&& state.task(id).state is Blocked ==> aborted.task(id).state == state.task(id).state
            &&& !(state.task(id).state is Blocked) ==> aborted.task(id).offered()
            &&& wrapper_step(WrapperStage::<V>::Idle, running, WrapperEvent::Poll) == (
                WrapperStage::<V>::Dropping,
                running,
                WrapperAction::<W>::DropFuture,
            )
            &&& wrapper_step(WrapperStage::<V>::Dropping, running, WrapperEvent::FutureDropped)
                == wrapper_drained(running, Err(JoinError::Cancelled))
        }),
{
}

/// A task whose cancellation nobody asked for is polled, and the value of its future is what comes
/// of it.
pub proof fn law_a_task_runs_to_completion<V, W>(state: ExecutionView<V, W>, value: V)
    requires
        state.wf(),
        state.is_running(),
        !state.task(state.me()).aborted,
    ensures
        wrapper_step(WrapperStage::<V>::Idle, state, WrapperEvent::Poll) == (
            WrapperStage::<V>::Polling,
            state,
            WrapperAction::<W>::PollFuture,
        ),
        wrapper_step(
            WrapperStage::Polling,
            state,
            WrapperEvent::FuturePolled(Poll::Ready(value)),
        ) == wrapper_drained(state, Ok(value)),
        wrapper_step(
            WrapperStage::<V>::Polling,
            state,
            WrapperEvent::FuturePolled(Poll::Pending),
        ) == (WrapperStage::<V>::Idle, state, WrapperAction::<W>::Pending),
{
}

/// Aborting a task that has finished does nothing, aborting one twice is the same as once, and a
/// result that is already there stays what it is.
pub proof fn law_abort_is_harmless<V, W>(task: TaskView<V, W>)
    ensures
        task.finished() ==> task.abort() == task,
        task.abort().abort() == task.abort(),
        task.abort().result == task.result,
        task.abort().finished() == task.finished(),
{
}

/// What came of driving a future: its value, the task whose waker each poll was made with, and how
/// many scheduling points there were.
#[verifier::ext_equal]
pub struct Driven<T> {
    pub value: T,
    pub wakers: Seq<TaskId>,
    pub switches: nat,
}

/// A future that answers its polls by `answers`, driven by `block_on` on the task `me` from an
/// event on, within `fuel` steps.
pub open spec fn driven<T>(
    answers: spec_fn(nat) -> Poll<T>,
    me: TaskId,
    event: BlockOnEvent<T>,
    wakers: Seq<TaskId>,
    switches: nat,
    fuel: nat,
) -> Option<Driven<T>>
    decreases fuel,
{
    match block_on_action(event, me) {
        BlockOnAction::Return(value) => Some(Driven { value, wakers, switches }),
        BlockOnAction::Switch => if fuel == 0 {
            None
        } else {
            driven(
                answers,
                me,
                BlockOnEvent::Resumed,
                wakers,
                switches + 1,
                (fuel - 1) as nat,
            )
        },
        BlockOnAction::Poll { waker } => if fuel == 0 {
            None
        } else {
            driven(
                answers,
                me,
                BlockOnEvent::Polled(answers(wakers.len())),
                wakers.push(waker),
                switches,
                (fuel - 1) as nat,
            )
        },
    }
}

/// `block_on` drives a future to completion and returns its value. It polls until the future is
/// ready and not once more, each time with the waker of its own task, and makes one scheduling
/// point before each poll and none after the last.
pub proof fn law_block_on_drives_to_completion<T>(
    answers: spec_fn(nat) -> Poll<T>,
    me: TaskId,
    n: nat,
    value: T,
)
    requires
        forall|i: nat| i < n ==> #[trigger] answers(i) is Pending,
        answers(n) == Poll::Ready(value),
    ensures
        driven(answers, me, BlockOnEvent::Called, Seq::empty(), 0, 2 * n + 2) == Some(
            Driven { value, wakers: Seq::new(n + 1, |i: int| me), switches: n + 1 },
        ),
{
    assert(Seq::<TaskId>::empty() =~= Seq::new(0, |i: int| me));
    lemma_driven_from(answers, me, n, value, BlockOnEvent::Called, Seq::empty());
}

proof fn lemma_driven_from<T>(
    answers: spec_fn(nat) -> Poll<T>,
    me: TaskId,
    n: nat,
    value: T,
    event: BlockOnEvent<T>,
    wakers: Seq<TaskId>,
)
    requires
        forall|i: nat| i < n ==> #[trigger] answers(i) is Pending,
        answers(n) == Poll::Ready(value),
        wakers.len() <= n,
        wakers == Seq::new(wakers.len(), |i: int| me),
        block_on_action(event, me) is Switch,
    ensures
        driven(
            answers,
            me,
            event,
            wakers,
            wakers.len(),
            (2 * (n - wakers.len()) + 2) as nat,
        ) == Some(Driven { value, wakers: Seq::new(n + 1, |i: int| me), switches: n + 1 }),
    decreases n - wakers.len(),
{
    reveal_with_fuel(driven, 4);
    let fuel = (2 * (n - wakers.len())) as nat;
    let next = BlockOnEvent::Polled(answers(wakers.len()));
    assert(driven(answers, me, event, wakers, wakers.len(), fuel + 2) == driven(
        answers,
        me,
        next,
        wakers.push(me),
        wakers.len() + 1,
        fuel,
    ));
    assert(wakers.push(me) =~= Seq::new(wakers.len() + 1, |i: int| me));
    if wakers.len() < n {
        lemma_driven_from(answers, me, n, value, next, wakers.push(me));
    }
}

/// A task that awaits `yield_now` with its own waker gives the scheduler a choice but stays
/// runnable: the wake of the first poll keeps it from going to sleep.
pub proof fn law_a_yielding_task_stays_runnable<V, W>(state: ExecutionView<V, W>)
    requires
        state.wf(),
        state.is_running(),
        state.task(state.me()).state is Runnable,
    ensures
        ({
            let me = state.me();
            let after = state.yielding().woken(me).slept();
            &&& after.yield_requested
            &&& after.task(me).state is Runnable
            &&& after.any_runnable()
        }),
{
    let me = state.me();
    let after = state.yielding().woken(me).slept();
    assert(after.tasks[me.0 as int].state is Runnable);
}

} // verus!
