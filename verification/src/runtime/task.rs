//! One task: what the executor knows of a thread or future under test.

use vstd::prelude::*;

use crate::future::JoinError;
use crate::runtime::clock::{extended, incremented, merged, VectorClock};
use crate::runtime::storage::{StorageMap, StorageView};
use crate::runtime::task_id::{Tag, TaskId};

verus! {

/// Whether a task can be scheduled.
#[derive(Clone, Copy, Debug, PartialEq, Eq, Structural)]
pub enum TaskState {
    /// Available to be scheduled.
    Runnable,
    /// Blocked in a synchronization operation. With the flag set the scheduler may wake it
    /// spuriously.
    Blocked { allow_spurious_wakeups: bool },
    /// A future that was not ready, waiting for its waker.
    Sleeping,
    /// Its function has returned. It never leaves this state.
    Finished,
}

/// A task, with output values of the type `V` and join wakers of the type `W`.
#[verifier::ext_equal]
pub struct TaskView<V, W> {
    /// Whether the task can be scheduled.
    pub state: TaskState,
    /// Its handle is gone: nobody waits for it any more.
    pub detached: bool,
    /// Its cancellation was asked for.
    pub aborted: bool,
    /// Its waker was called since it was last about to sleep.
    pub woken: bool,
    /// The task whose poll of the join handle found no result.
    pub waiter: Option<TaskId>,
    /// The waker which that poll was made with.
    pub waker: Option<W>,
    /// What came of the task, until the join handle takes it.
    pub result: Option<Result<V, JoinError>>,
    pub tag: Tag,
    pub clock: Seq<u32>,
    pub locals: StorageView,
}

impl<V, W> TaskView<V, W> {
    /// A task that has just been created.
    pub open spec fn fresh(tag: Tag, clock: Seq<u32>) -> TaskView<V, W> {
        TaskView {
            state: TaskState::Runnable,
            detached: false,
            aborted: false,
            woken: false,
            waiter: None,
            waker: None,
            result: None,
            tag,
            clock,
            locals: StorageView { keys: Seq::empty(), destroyed: 0 },
        }
    }

    pub open spec fn finished(self) -> bool {
        self.state is Finished
    }

    /// The scheduler may choose the task: it is runnable, or can be woken spuriously.
    pub open spec fn offered(self) -> bool {
        self.state is Runnable || self.state == (TaskState::Blocked {
            allow_spurious_wakeups: true,
        })
    }

    /// Its waker was called: that is remembered, and a sleeping task becomes runnable.
    pub open spec fn wake(self) -> TaskView<V, W> {
        TaskView {
            woken: true,
            state: if self.state is Sleeping {
                TaskState::Runnable
            } else {
                self.state
            },
            ..self
        }
    }

    /// Its poll was not ready: it sleeps, unless its waker was called in the meantime.
    pub open spec fn sleep_unless_woken(self) -> TaskView<V, W> {
        TaskView {
            woken: false,
            state: if self.woken {
                self.state
            } else {
                TaskState::Sleeping
            },
            ..self
        }
    }

    /// Cancellation was asked for: the next poll of the task will see it.
    pub open spec fn abort(self) -> TaskView<V, W> {
        if self.finished() {
            self
        } else {
            TaskView { aborted: true, ..self.wake() }
        }
    }
}

/// A task, with output values of the type `V` and join wakers of the type `W`.
pub struct Task<V, W> {
    state: TaskState,
    detached: bool,
    aborted: bool,
    woken: bool,
    waiter: Option<TaskId>,
    waker: Option<W>,
    result: Option<Result<V, JoinError>>,
    tag: Tag,
    clock: VectorClock,
    locals: StorageMap,
}

impl<V, W> View for Task<V, W> {
    type V = TaskView<V, W>;

    closed spec fn view(&self) -> TaskView<V, W> {
        TaskView {
            state: self.state,
            detached: self.detached,
            aborted: self.aborted,
            woken: self.woken,
            waiter: self.waiter,
            waker: self.waker,
            result: self.result,
            tag: self.tag,
            clock: self.clock@,
            locals: self.locals@,
        }
    }
}

impl<V, W> Task<V, W> {
    /// A runnable task with the given tag and clock.
    pub fn new(tag: Tag, clock: VectorClock) -> (task: Self)
        ensures
            task@ == TaskView::<V, W>::fresh(tag, clock@),
    {
        Task {
            state: TaskState::Runnable,
            detached: false,
            aborted: false,
            woken: false,
            waiter: None,
            waker: None,
            result: None,
            tag,
            clock,
            locals: StorageMap::new(),
        }
    }

    pub fn state(&self) -> (state: TaskState)
        ensures
            state == self@.state,
    {
        self.state
    }

    pub fn finished(&self) -> (finished: bool)
        ensures
            finished == self@.finished(),
    {
        matches!(self.state, TaskState::Finished)
    }

    pub fn offered(&self) -> (offered: bool)
        ensures
            offered == self@.offered(),
    {
        match self.state {
            TaskState::Runnable => true,
            TaskState::Blocked { allow_spurious_wakeups } => allow_spurious_wakeups,
            _ => false,
        }
    }

    pub fn detached(&self) -> (detached: bool)
        ensures
            detached == self@.detached,
    {
        self.detached
    }

    pub fn aborted(&self) -> (aborted: bool)
        ensures
            aborted == self@.aborted,
    {
        self.aborted
    }

    pub fn tag(&self) -> (tag: Tag)
        ensures
            tag == self@.tag,
    {
        self.tag
    }

    pub fn clock(&self) -> (clock: &VectorClock)
        ensures
            clock@ == self@.clock,
    {
        &self.clock
    }

    /// Puts `tag` in place of the tag that is returned.
    pub fn set_tag(&mut self, tag: Tag) -> (previous: Tag)
        ensures
            previous == old(self)@.tag,
            final(self)@ == (TaskView { tag, ..old(self)@ }),
    {
        let previous = self.tag;
        self.tag = tag;
        previous
    }

    /// Blocks the task in a synchronization operation.
    pub fn block(&mut self, allow_spurious_wakeups: bool)
        requires
            !old(self)@.finished(),
        ensures
            final(self)@ == (TaskView {
                state: TaskState::Blocked { allow_spurious_wakeups },
                ..old(self)@
            }),
    {
        self.state = TaskState::Blocked { allow_spurious_wakeups };
    }

    /// Makes the task available to be scheduled, blocked or not.
    pub fn unblock(&mut self)
        requires
            !old(self)@.finished(),
        ensures
            final(self)@ == (TaskView { state: TaskState::Runnable, ..old(self)@ }),
    {
        self.state = TaskState::Runnable;
    }

    /// The function of the task has returned.
    pub fn finish(&mut self)
        requires
            !old(self)@.finished(),
        ensures
            final(self)@ == (TaskView { state: TaskState::Finished, ..old(self)@ }),
    {
        self.state = TaskState::Finished;
    }

    /// Nobody waits for the task any more.
    pub fn detach(&mut self)
        ensures
            final(self)@ == (TaskView { detached: true, ..old(self)@ }),
    {
        self.detached = true;
    }

    /// Remembers that the waker was called, and unblocks the task if it is asleep.
    pub fn wake(&mut self)
        ensures
            final(self)@ == old(self)@.wake(),
    {
        self.woken = true;
        if let TaskState::Sleeping = self.state {
            self.state = TaskState::Runnable;
        }
    }

    /// Puts the task to sleep after a poll that was not ready, unless its waker was called first.
    pub fn sleep_unless_woken(&mut self)
        requires
            old(self)@.woken || !old(self)@.finished(),
        ensures
            final(self)@ == old(self)@.sleep_unless_woken(),
    {
        if !self.woken {
            self.state = TaskState::Sleeping;
        }
        self.woken = false;
    }

    /// Asks for cancellation, which the next poll of the task will see.
    pub fn abort(&mut self)
        ensures
            final(self)@ == old(self)@.abort(),
    {
        if !self.finished() {
            self.aborted = true;
            self.wake();
        }
    }

    /// Remembers who waits for the task, and the waker to call when it is done. Returns whether
    /// the task is still unfinished, so that there is something to wait for.
    pub fn set_waiter(&mut self, waiter: TaskId, waker: W) -> (waits: bool)
        ensures
            waits == !old(self)@.finished(),
            final(self)@ == if waits {
                TaskView { waiter: Some(waiter), waker: Some(waker), ..old(self)@ }
            } else {
                old(self)@
            },
    {
        if self.finished() {
            false
        } else {
            self.waiter = Some(waiter);
            self.waker = Some(waker);
            true
        }
    }

    /// Takes the waiter away.
    pub fn take_waiter(&mut self) -> (waiter: Option<TaskId>)
        ensures
            waiter == old(self)@.waiter,
            final(self)@ == (TaskView { waiter: None, ..old(self)@ }),
    {
        self.waiter.take()
    }

    /// Takes the waker of the waiter away.
    pub fn take_waker(&mut self) -> (waker: Option<W>)
        ensures
            waker == old(self)@.waker,
            final(self)@ == (TaskView { waker: None, ..old(self)@ }),
    {
        self.waker.take()
    }

    /// Publishes what came of the task.
    pub fn set_result(&mut self, result: Result<V, JoinError>)
        ensures
            final(self)@ == (TaskView { result: Some(result), ..old(self)@ }),
    {
        self.result = Some(result);
    }

    /// Whether it is known what came of the task, and nobody has taken it.
    pub fn has_result(&self) -> (known: bool)
        ensures
            known == self@.result is Some,
    {
        self.result.is_some()
    }

    /// Takes what came of the task, if that is known.
    pub fn take_result(&mut self) -> (result: Option<Result<V, JoinError>>)
        ensures
            result == old(self)@.result,
            final(self)@ == (TaskView { result: None, ..old(self)@ }),
    {
        self.result.take()
    }

    /// Whether the local value `key` was never initialized, and so can be.
    pub fn can_init_local(&self, key: usize) -> (ok: bool)
        ensures
            ok == !self@.locals.keys.contains(key),
    {
        !self.locals.contains(key)
    }

    /// Records that a local value was initialized.
    pub fn init_local(&mut self, key: usize)
        requires
            old(self)@.locals.wf(),
            !old(self)@.locals.keys.contains(key),
        ensures
            final(self)@ == (TaskView { locals: old(self)@.locals.initialized(key), ..old(self)@ }),
            final(self)@.locals.wf(),
    {
        self.locals.init(key);
    }

    /// Hands out the oldest local value that is still alive.
    pub fn pop_local(&mut self) -> (key: Option<usize>)
        requires
            old(self)@.locals.wf(),
        ensures
            final(self)@ == (TaskView { locals: old(self)@.locals.popped(), ..old(self)@ }),
            final(self)@.locals.wf(),
            key == if old(self)@.locals.has_live() {
                Some(old(self)@.locals.oldest())
            } else {
                None
            },
    {
        self.locals.pop()
    }

    /// Counts the creation of `child` by the task itself, `me`, and returns the clock that the
    /// child starts with.
    pub fn count_spawn(&mut self, me: TaskId, child: TaskId) -> (clock: VectorClock)
        requires
            me.0 < old(self)@.clock.len(),
            old(self)@.clock[me.0 as int] < u32::MAX,
        ensures
            clock@ == extended(
                incremented(old(self)@.clock, me.0 as int),
                child.0 as nat + 1,
            ),
            final(self)@ == (TaskView { clock: clock@, ..old(self)@ }),
    {
        self.clock.increment(me);
        self.clock.extend(child);
        self.clock.clone()
    }

    /// Learns all that `clock` knows.
    pub fn merge_clock(&mut self, clock: &VectorClock)
        ensures
            final(self)@ == (TaskView { clock: merged(old(self)@.clock, clock@), ..old(self)@ }),
    {
        self.clock.update(clock);
    }
}

} // verus!
