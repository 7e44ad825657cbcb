//! The decisions of an async executor whose tasks are scheduled one at a time.
//!
//! Polling a future, dropping it, and handing control to the scheduler is the work of whoever
//! drives an execution. What is decided between those steps is decided here: each operation takes
//! what has just happened and says what is to be done next.

use core::marker::PhantomData;

use vstd::prelude::*;

use crate::runtime::execution::{ExecutionState, ExecutionView};
use crate::runtime::task::TaskView;
use crate::runtime::task_id::TaskId;

pub mod laws;
pub mod runs;

verus! {

/// What came of asking whether something is ready.
#[derive(Debug)]
pub enum Poll<T> {
    Ready(T),
    Pending,
}

/// How far an operation with one scheduling point has come.
#[derive(Clone, Copy, Debug, PartialEq, Eq, Structural)]
pub enum Event {
    /// It was called.
    Called,
    /// The task that called it was scheduled again.
    Resumed,
}

/// What is next in an operation with one scheduling point.
#[derive(Debug)]
pub enum Step<T> {
    /// The scheduler decides who goes on; the next event is `Resumed`.
    Switch,
    /// The operation is done.
    Done(T),
}

/// Task failed to execute to completion.
#[derive(Clone, Copy, Debug, PartialEq, Eq, Structural)]
pub enum JoinError {
    /// Task was aborted.
    Cancelled,
}

/// What `spawn` makes: the handle for the caller, and what the new task runs.
#[derive(Debug)]
pub struct Spawned<V> {
    pub handle: JoinHandle<V>,
    pub wrapper: Wrapper<V>,
    /// The size of the stack that the new task is to have.
    pub stack_size: usize,
}

/// Spawns a new async task that the executor will run to completion. The scheduler may switch to
/// another task before the new one is created.
pub fn spawn<V, W>(state: &mut ExecutionState<V, W>, event: Event) -> (step: Step<Spawned<V>>)
    requires
        old(state)@.wf(),
        old(state)@.is_running(),
        event is Resumed ==> old(state)@.task(
            old(state)@.me(),
        ).clock[old(state)@.me().0 as int] < u32::MAX,
    ensures
        final(state)@.wf(),
        match event {
            Event::Called => step is Switch && final(state)@ == old(state)@,
            Event::Resumed => {
                &&& step matches Step::Done(spawned)
                &&& spawned.handle.id().0 == old(state)@.tasks.len()
                &&& spawned.wrapper.stage is Idle
                &&& spawned.stack_size == old(state)@.stack_size
                &&& final(state)@ == old(state)@.spawned()
            },
        },
{
    match event {
        Event::Called => Step::Switch,
        Event::Resumed => {
            let task_id = state.spawn_future();
            let stack_size = state.stack_size();
            Step::Done(
                Spawned {
                    handle: JoinHandle { task_id, output: PhantomData },
                    wrapper: Wrapper::new(),
                    stack_size,
                },
            )
        },
    }
}

/// An owned permission to join on an async task (await its termination).
#[derive(Debug)]
pub struct JoinHandle<V> {
    task_id: TaskId,
    output: PhantomData<V>,
}

impl<V> JoinHandle<V> {
    /// The task that the handle is for.
    pub closed spec fn id(&self) -> TaskId {
        self.task_id
    }

    /// The task that the handle is for.
    pub fn task_id(&self) -> (id: TaskId)
        ensures
            id == self.id(),
    {
        self.task_id
    }

    /// Aborts the task associated with the handle, at the next point at which it is polled. The
    /// scheduler may switch to another task first, so the task may finish before that.
    pub fn abort<W>(&self, state: &mut ExecutionState<V, W>, event: Event) -> (step: Step<()>)
        requires
            old(state)@.wf(),
            old(state)@.has(self.id()),
        ensures
            final(state)@.wf(),
            step is Switch <==> event is Called && !old(state)@.is_finished(),
            final(state)@ == if event is Called {
                old(state)@
            } else {
                old(state)@.aborted(self.id())
            },
    {
        match event {
            Event::Called => if state.is_finished() {
                Step::Done(())
            } else {
                Step::Switch
            },
            Event::Resumed => {
                state.abort(self.task_id);
                Step::Done(())
            },
        }
    }

    /// Gives the handle up. That does not cancel the task but detaches it.
    pub fn drop<W>(self, state: &mut ExecutionState<V, W>)
        requires
            old(state)@.wf(),
            old(state)@.has(self.id()),
        ensures
            final(state)@.wf(),
            final(state)@ == old(state)@.dropped(self.id()),
            !old(state)@.is_finished() ==> final(state)@.task(self.id()).detached,
    {
        state.detach(self.task_id);
    }

    /// Takes what came of the task, if it is done. If it is not, the current task is woken when it
    /// is, and `waker` is called then.
    pub fn poll<W>(&mut self, state: &mut ExecutionState<V, W>, waker: W) -> (poll: Poll<
        Result<V, JoinError>,
    >)
        requires
            old(state)@.wf(),
            old(state)@.has(old(self).id()),
            old(state)@.task(old(self).id()).result is None ==> old(state)@.is_running()
                && !old(state)@.task(old(self).id()).finished(),
        ensures
            *final(self) == *old(self),
            final(state)@.wf(),
            (poll, final(state)@) == join_polled(old(state)@, old(self).id(), waker),
    {
        match state.take_result(self.task_id) {
            Some(result) => {
                state.join(self.task_id);
                Poll::Ready(result)
            },
            None => {
                let waits = state.wait_for(self.task_id, waker);
                assert(waits);
                Poll::Pending
            },
        }
    }
}

/// What a poll of the join handle of the task `id` gives, and the state after it.
pub open spec fn join_polled<V, W>(state: ExecutionView<V, W>, id: TaskId, waker: W) -> (
    Poll<Result<V, JoinError>>,
    ExecutionView<V, W>,
) {
    match state.task(id).result {
        Some(result) => (
            Poll::Ready(result),
            state.with_task(id, TaskView { result: None, ..state.task(id) }).joined(id),
        ),
        None => (
            Poll::Pending,
            state.with_task(
                id,
                TaskView { waiter: Some(state.me()), waker: Some(waker), ..state.task(id) },
            ),
        ),
    }
}

/// How far the body of a spawned task has come.
#[derive(Debug)]
pub enum WrapperStage<V> {
    /// It is not being polled.
    Idle,
    /// Its future is being polled.
    Polling,
    /// Its future is being dropped.
    Dropping,
    /// It is known what comes of it; its local values are being destroyed.
    Draining(Result<V, JoinError>),
    /// Its result is published.
    Done,
}

/// What has just happened to the body of a spawned task.
#[derive(Debug)]
pub enum WrapperEvent<V> {
    /// The executor polls it.
    Poll,
    /// Its future was polled.
    FuturePolled(Poll<V>),
    /// Its future was dropped.
    FutureDropped,
    /// The local value that was handed out was destroyed.
    LocalDropped,
}

/// What is next in the body of a spawned task.
#[derive(Debug)]
pub enum WrapperAction<W> {
    /// Poll the future; the next event is `FuturePolled`.
    PollFuture,
    /// Drop the future; the next event is `FutureDropped`.
    DropFuture,
    /// Destroy the local value with this key; the next event is `LocalDropped`.
    DropLocal(usize),
    /// The body is not done. The next event is `Poll`.
    Pending,
    /// The body is done, and this waker, if any, is to be called.
    Ready(Option<W>),
}

/// The body of a spawned task: it runs a future and publishes the value where it can be passed to
/// a task waiting on the join handle.
#[derive(Debug)]
pub struct Wrapper<V> {
    pub stage: WrapperStage<V>,
}

/// The event can happen at that stage.
pub open spec fn wrapper_expects<V>(stage: WrapperStage<V>, event: WrapperEvent<V>) -> bool {
    match event {
        WrapperEvent::Poll => stage is Idle,
        WrapperEvent::FuturePolled(_) => stage is Polling,
        WrapperEvent::FutureDropped => stage is Dropping,
        WrapperEvent::LocalDropped => stage is Draining,
    }
}

/// The step of the body of the current task when `result` is what comes of it: the local values
/// are destroyed one at a time, and then the result is published.
pub open spec fn wrapper_drained<V, W>(
    state: ExecutionView<V, W>,
    result: Result<V, JoinError>,
) -> (WrapperStage<V>, ExecutionView<V, W>, WrapperAction<W>) {
    let task = state.task(state.me());
    if task.locals.has_live() {
        (
            WrapperStage::Draining(result),
            state.local_popped(),
            WrapperAction::DropLocal(task.locals.oldest()),
        )
    } else {
        (WrapperStage::Done, state.published(result), WrapperAction::Ready(task.waker))
    }
}

/// The step of the body of the current task: how far it has come then, the state, and what is
/// next.
pub open spec fn wrapper_step<V, W>(
    stage: WrapperStage<V>,
    state: ExecutionView<V, W>,
    event: WrapperEvent<V>,
) -> (WrapperStage<V>, ExecutionView<V, W>, WrapperAction<W>) {
    match event {
        WrapperEvent::Poll => if state.task(state.me()).aborted {
            (WrapperStage::Dropping, state, WrapperAction::DropFuture)
        } else {
            (WrapperStage::Polling, state, WrapperAction::PollFuture)
        },
        WrapperEvent::FuturePolled(Poll::Pending) => (
            WrapperStage::Idle,
            state,
            WrapperAction::Pending,
        ),
        WrapperEvent::FuturePolled(Poll::Ready(value)) => wrapper_drained(state, Ok(value)),
        WrapperEvent::FutureDropped => wrapper_drained(state, Err(JoinError::Cancelled)),
        WrapperEvent::LocalDropped => wrapper_drained(state, stage->Draining_0),
    }
}

impl<V> Wrapper<V> {
    /// The body of a task that has not been polled.
    pub fn new() -> (wrapper: Self)
        ensures
            wrapper.stage is Idle,
    {
        Wrapper { stage: WrapperStage::Idle }
    }

    /// The next step of the body of the current task.
    pub fn poll<W>(&mut self, state: &mut ExecutionState<V, W>, event: WrapperEvent<V>) -> (action:
        WrapperAction<W>)
        requires
            old(state)@.wf(),
            old(state)@.is_running(),
            wrapper_expects(old(self).stage, event),
        ensures
            final(state)@.wf(),
            (final(self).stage, final(state)@, action) == wrapper_step(
                old(self).stage,
                old(state)@,
                event,
            ),
    {
        match event {
            WrapperEvent::Poll => {
                let me = state.current();
                if state.get(me).aborted() {
                    self.stage = WrapperStage::Dropping;
                    WrapperAction::DropFuture
                } else {
                    self.stage = WrapperStage::Polling;
                    WrapperAction::PollFuture
                }
            },
            WrapperEvent::FuturePolled(Poll::Pending) => {
                self.stage = WrapperStage::Idle;
                WrapperAction::Pending
            },
            WrapperEvent::FuturePolled(Poll::Ready(value)) => self.drain(state, Ok(value)),
            WrapperEvent::FutureDropped => self.drain(state, Err(JoinError::Cancelled)),
            WrapperEvent::LocalDropped => {
                let mut stage = WrapperStage::Done;
                core::mem::swap(&mut stage, &mut self.stage);
                match stage {
                    WrapperStage::Draining(result) => self.drain(state, result),
                    _ => WrapperAction::Pending,
                }
            },
        }
    }

    /// Hands out the next local value to destroy, or publishes the result when there is none.
    fn drain<W>(
        &mut self,
        state: &mut ExecutionState<V, W>,
        result: Result<V, JoinError>,
    ) -> (action: WrapperAction<W>)
        requires
            old(state)@.wf(),
            old(state)@.is_running(),
        ensures
            final(state)@.wf(),
            (final(self).stage, final(state)@, action) == wrapper_drained(old(state)@, result),
    {
        match state.pop_local() {
            Some(key) => {
                self.stage = WrapperStage::Draining(result);
                WrapperAction::DropLocal(key)
            },
            None => {
                assert(state@ =~= old(state)@);
                self.stage = WrapperStage::Done;
                WrapperAction::Ready(state.publish(result))
            },
        }
    }
}

/// What has just happened in `block_on`.
#[derive(Debug)]
pub enum BlockOnEvent<T> {
    /// It was called.
    Called,
    /// The task that called it was scheduled again.
    Resumed,
    /// The future was polled.
    Polled(Poll<T>),
}

/// What is next in `block_on`.
#[derive(Debug)]
pub enum BlockOnAction<T> {
    /// The scheduler decides who goes on; the next event is `Resumed`.
    Switch,
    /// Poll the future with the waker of the task `waker`; the next event is `Polled`.
    Poll { waker: TaskId },
    /// The future gave this value.
    Return(T),
}

/// What `block_on` does after an event, on the task `me`.
pub open spec fn block_on_action<T>(event: BlockOnEvent<T>, me: TaskId) -> BlockOnAction<T> {
    match event {
        BlockOnEvent::Called => BlockOnAction::Switch,
        BlockOnEvent::Resumed => BlockOnAction::Poll { waker: me },
        BlockOnEvent::Polled(Poll::Pending) => BlockOnAction::Switch,
        BlockOnEvent::Polled(Poll::Ready(value)) => BlockOnAction::Return(value),
    }
}

/// Runs a future to completion on the current task. The scheduler decides before each poll who
/// goes on, and each poll is made with the waker of the current task; a task whose future is not ready sleeps, unless its waker was called meanwhile.
pub fn block_on<V, W, T>(state: &mut ExecutionState<V, W>, event: BlockOnEvent<T>) -> (action:
    BlockOnAction<T>)
    requires
        old(state)@.wf(),
        old(state)@.is_running(),
        event is Polled && event->Polled_0 is Pending ==> old(state)@.task(old(state)@.me()).woken
            || !old(state)@.task(old(state)@.me()).finished(),
    ensures
        final(state)@.wf(),
        action == block_on_action(event, old(state)@.me()),
        final(state)@ == if event is Polled && event->Polled_0 is Pending {
            old(state)@.slept()
        } else {
            old(state)@
        },
{
    match event {
        BlockOnEvent::Called => BlockOnAction::Switch,
        BlockOnEvent::Resumed => BlockOnAction::Poll { waker: state.current() },
        BlockOnEvent::Polled(Poll::Pending) => {
            state.sleep_unless_woken();
            BlockOnAction::Switch
        },
        BlockOnEvent::Polled(Poll::Ready(value)) => BlockOnAction::Return(value),
    }
}

/// A future that is not ready once.
#[derive(Debug)]
pub struct YieldNow {
    pub yielded: bool,
}

/// What came of polling a `YieldNow`.
#[derive(Clone, Copy, Debug, PartialEq, Eq, Structural)]
pub enum YieldPoll {
    Ready,
    /// It is not ready, and the waker that it was polled with is to be called.
    WakeThenPending,
}

/// Yields execution back to the scheduler, when it is awaited.
pub fn yield_now() -> (future: YieldNow)
    ensures
        !future.yielded,
{
    YieldNow { yielded: false }
}

impl YieldNow {
    /// The first poll wakes the task, tells the scheduler that it wants to yield, and is not
    /// ready.
    pub fn poll<V, W>(&mut self, state: &mut ExecutionState<V, W>) -> (poll: YieldPoll)
        requires
            old(state)@.wf(),
        ensures
            final(state)@.wf(),
            final(self).yielded,
            poll is Ready <==> old(self).yielded,
            final(state)@ == if old(self).yielded {
                old(state)@
            } else {
                old(state)@.yielding()
            },
    {
        if self.yielded {
            return YieldPoll::Ready;
        }
        self.yielded = true;
        state.request_yield();
        YieldPoll::WakeThenPending
    }
}

} // verus!
