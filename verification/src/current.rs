//! Information about the current task and current execution.
//!
//! This is useful for building tools that need to exploit the total ordering of concurrent
//! operations; for example, a tool that wants to check linearizability might want access to a
//! global timestamp for events, which the [`context_switches`] function provides.

use vstd::prelude::*;

use crate::runtime::clock::VectorClock;
use crate::runtime::execution::ExecutionState;

pub use crate::runtime::task_id::{Tag, TaskId};

verus! {

/// The number of context switches that happened so far in the current execution.
///
/// Note that this is the number of *possible* context switches, i.e., including times when the
/// scheduler decided to continue with the same task. This means the result can be used as a
/// timestamp for atomic actions during an execution.
pub fn context_switches<V, W>(state: &ExecutionState<V, W>) -> (n: usize)
    ensures
        n == state@.context_switches,
{
    state.context_switches()
}

/// Gets the current task's vector clock.
pub fn clock<V, W>(state: &ExecutionState<V, W>) -> (clock: VectorClock)
    requires
        state@.wf(),
        state@.is_running(),
    ensures
        clock@ == state@.task(state@.me()).clock,
{
    let me = state.current();
    state.get(me).clock().clone()
}

/// Gets the clock for the task with the given task ID.
pub fn clock_for<V, W>(state: &ExecutionState<V, W>, task_id: TaskId) -> (clock: VectorClock)
    requires
        state@.has(task_id),
    ensures
        clock@ == state@.task(task_id).clock,
{
    state.get(task_id).clock().clone()
}

/// Sets the `tag` field of the current task.
/// Returns the `tag` which was there previously.
pub fn set_tag_for_current_task<V, W>(state: &mut ExecutionState<V, W>, tag: Tag) -> (previous: Tag)
    requires
        old(state)@.wf(),
        old(state)@.is_running(),
    ensures
        previous == old(state)@.task(old(state)@.me()).tag,
        final(state)@ == old(state)@.tagged(tag),
        final(state)@.task(old(state)@.me()).tag == tag,
        final(state)@.current == old(state)@.current,
        final(state)@.wf(),
{
    state.set_tag(tag)
}

/// Gets the `tag` field of the current task.
pub fn get_tag_for_current_task<V, W>(state: &ExecutionState<V, W>) -> (tag: Tag)
    requires
        state@.wf(),
        state@.is_running(),
    ensures
        tag == state@.task(state@.me()).tag,
{
    let me = state.current();
    state.get(me).tag()
}

/// Gets the `TaskId` of the current task, or `None` if there is no current task: outside of an
/// execution, before it has begun and after it is over.
pub fn get_current_task<V, W>(state: Option<&ExecutionState<V, W>>) -> (task: Option<TaskId>)
    ensures
        task == match state {
            Some(state) if state@.is_running() => Some(state@.me()),
            _ => None,
        },
{
    match state {
        Some(state) => state.try_current(),
        None => None,
    }
}

} // verus!
