//! What the functions of this crate give when they are called.
//!
//! Each law speaks of calls that have returned, whatever their arguments, and relates what went into
//! them to what came out. An execution that is handed from one call to the next is known by its
//! view.

use vstd::prelude::*;

use crate::current::{
    clock, clock_for, context_switches, get_current_task, get_tag_for_current_task,
    set_tag_for_current_task,
};
use crate::future::laws::settles;
use crate::future::{
    block_on, spawn, yield_now, BlockOnAction, BlockOnEvent, Event, JoinError, JoinHandle, Poll,
    Spawned, Step, Wrapper, WrapperAction, WrapperEvent, WrapperStage, YieldNow, YieldPoll,
};
use crate::runtime::clock::{entry, VectorClock};
use crate::runtime::effects::{is_untouched, law_what_a_spawn_does, touches_only};
use crate::runtime::execution::{CurrentTask, ExecutionState, ExecutionView, Offer};
use crate::runtime::laws::law_offered_are_the_tasks_that_can_run;
use crate::runtime::task::{Task, TaskState, TaskView};
use crate::runtime::task_id::{Tag, TaskId};
use crate::scheduler::data::pcg_seeded_draw;
use crate::scheduler::dfs::{DfsScheduler, DfsView};
use crate::scheduler::search::{is_first_at, law_how_a_choice_is_made};
use crate::scheduler::{Schedule, ScheduleStep};

verus! {

/// The tag that a task sets is the one that it gets afterwards, whatever it was before, and to set it
/// gives back the one that it got before.
pub proof fn law_the_tag_that_is_set_is_got<V, W>(tag: Tag)
    ensures
        forall|
            s: &mut ExecutionState<V, W>,
            previous: Tag,
            after: &ExecutionState<V, W>,
            got: Tag,
        |
            #![trigger
                call_ensures(set_tag_for_current_task::<V, W>, (s, tag), previous),
                call_ensures(get_tag_for_current_task::<V, W>, (after,), got)
            ]
            {
                &&& (*s)@.wf()
                &&& (*s)@.current is Running
                &&& call_ensures(set_tag_for_current_task::<V, W>, (s, tag), previous)
                &&& after@ == final(s)@
                &&& call_ensures(get_tag_for_current_task::<V, W>, (after,), got)
            } ==> got == tag && touches_only((*s)@, final(s)@, (*s)@.current->Running_0),
        forall|
            before: &ExecutionState<V, W>,
            got: Tag,
            s: &mut ExecutionState<V, W>,
            previous: Tag,
        |
            #![trigger
                call_ensures(get_tag_for_current_task::<V, W>, (before,), got),
                call_ensures(set_tag_for_current_task::<V, W>, (s, tag), previous)
            ]
            {
                &&& call_ensures(get_tag_for_current_task::<V, W>, (before,), got)
                &&& before@ == (*s)@
                &&& call_ensures(set_tag_for_current_task::<V, W>, (s, tag), previous)
            } ==> previous == got,
{
}

/// A scheduling point offers a choice exactly while some task is runnable, detached or not, and some
/// task that is waited for has not finished. It is a deadlock exactly if there is such a task and
/// nothing is runnable. The options are the tasks that can be chosen, in creation order.
pub proof fn law_what_a_scheduling_point_offers<V, W>(id: TaskId)
    ensures
        forall|s: &mut ExecutionState<V, W>, offer: Offer|
            (*s)@.tasks.len() <= usize::MAX && #[trigger] call_ensures(
                ExecutionState::<V, W>::schedule,
                (s,),
                offer,
            ) ==> {
                let tasks = (*s)@.tasks;
                let runnable = exists|i: int|
                    0 <= i < tasks.len() && (#[trigger] tasks[i]).state is Runnable;
                let awaited = exists|i: int|
                    0 <= i < tasks.len() && !((#[trigger] tasks[i]).state is Finished)
                        && !tasks[i].detached;
                &&& offer is Choose <==> runnable && awaited
                &&& offer is Deadlock <==> !runnable && awaited
                &&& offer is Finished <==> !awaited
                &&& offer matches Offer::Choose { runnable, is_yielding } ==> {
                    &&& runnable@.contains(id) <==> {
                        &&& id.0 < tasks.len()
                        &&& tasks[id.0 as int].state is Runnable || tasks[id.0 as int].state == (
                        TaskState::Blocked { allow_spurious_wakeups: true })
                    }
                    &&& forall|a: int, b: int|
                        0 <= a < b < runnable@.len() ==> (#[trigger] runnable@[a]).0 < (
                        #[trigger] runnable@[b]).0
                    &&& is_yielding == (*s)@.yield_requested
                    &&& !final(s)@.yield_requested
                    &&& final(s)@.current == (*s)@.current
                }
                &&& !(offer is Choose) ==> final(s)@.current is Finished
                &&& final(s)@.tasks == tasks
                &&& final(s)@.steps == (*s)@.steps
                &&& final(s)@.seed == (*s)@.seed
                &&& final(s)@.stack_size == (*s)@.stack_size
                &&& final(s)@.context_switches == (*s)@.context_switches + 1
            },
{
    assert forall|s: &mut ExecutionState<V, W>|
        (*s)@.tasks.len() <= usize::MAX implies (#[trigger] (*s)@.offered()).contains(id) == ((
    *s)@.has(id) && (*s)@.task(id).offered()) && (forall|a: int, b: int|
        0 <= a < b < (*s)@.offered().len() ==> (#[trigger] (*s)@.offered()[a]).0 < (
        #[trigger] (*s)@.offered()[b]).0) by {
        law_offered_are_the_tasks_that_can_run((*s)@);
    }
}

/// Each choice adds one step to the record, and the task that was chosen is the current one then,
/// also if it was before. When the scheduler gives up nothing is recorded and no task is current.
pub proof fn law_each_choice_is_one_recorded_step<V, W>(choice: Option<TaskId>)
    ensures
        forall|
            s: &mut ExecutionState<V, W>,
            after: &ExecutionState<V, W>,
            record: &Schedule,
            current: Option<TaskId>,
        |
            #![trigger
                call_ensures(ExecutionState::<V, W>::advance, (s, choice), ()),
                call_ensures(ExecutionState::<V, W>::recorded, (after,), record),
                call_ensures(get_current_task::<V, W>, (Some(after),), current)
            ]
            {
                &&& (*s)@.wf()
                &&& choice matches Some(id) ==> id.0 < (*s)@.tasks.len()
                &&& call_ensures(ExecutionState::<V, W>::advance, (s, choice), ())
                &&& after@ == final(s)@
                &&& call_ensures(ExecutionState::<V, W>::recorded, (after,), record)
                &&& call_ensures(get_current_task::<V, W>, (Some(after),), current)
            } ==> {
                &&& record.seed == (*s)@.seed
                &&& current == choice
                &&& record.steps@ == match choice {
                    Some(id) => (*s)@.steps.push(ScheduleStep::Task(id)),
                    None => (*s)@.steps,
                }
                &&& choice is None ==> after@ == (ExecutionView {
                    current: CurrentTask::Stopped,
                    ..(*s)@
                })
                &&& choice matches Some(id) ==> {
                    &&& after@.tasks[id.0 as int] == (TaskView {
                        state: TaskState::Runnable,
                        ..(*s)@.tasks[id.0 as int]
                    })
                    &&& touches_only(
                        (*s)@,
                        ExecutionView { current: (*s)@.current, steps: (*s)@.steps, ..after@ },
                        id,
                    )
                }
            },
{
}

/// A draw adds one step of its kind to the record and does nothing else.
pub proof fn law_each_draw_is_one_recorded_step<V, W>()
    ensures
        forall|s: &mut ExecutionState<V, W>|
            #[trigger] call_ensures(ExecutionState::<V, W>::record_draw, (s,), ()) ==> final(s)@
                == (ExecutionView { steps: (*s)@.steps.push(ScheduleStep::Random), ..(*s)@ }),
{
}

/// Each scheduling point counts as one context switch.
pub proof fn law_each_scheduling_point_is_counted<V, W>()
    ensures
        forall|
            before: &ExecutionState<V, W>,
            n: usize,
            s: &mut ExecutionState<V, W>,
            offer: Offer,
            after: &ExecutionState<V, W>,
            later: usize,
        |
            #![trigger
                call_ensures(context_switches::<V, W>, (before,), n),
                call_ensures(ExecutionState::<V, W>::schedule, (s,), offer),
                call_ensures(context_switches::<V, W>, (after,), later)
            ]
            {
                &&& call_ensures(context_switches::<V, W>, (before,), n)
                &&& before@ == (*s)@
                &&& call_ensures(ExecutionState::<V, W>::schedule, (s,), offer)
                &&& after@ == final(s)@
                &&& call_ensures(context_switches::<V, W>, (after,), later)
            } ==> later == n + 1,
{
}

/// A handle that is dropped in an execution that is not over detaches its task, whatever the task
/// does, and does nothing else.
pub proof fn law_what_dropping_a_handle_does<V, W>()
    ensures
        forall|handle: JoinHandle<V>, s: &mut ExecutionState<V, W>|
            (*s)@.wf() && handle.id().0 < (*s)@.tasks.len() && #[trigger] call_ensures(
                JoinHandle::<V>::drop::<W>,
                (handle, s),
                (),
            ) ==> {
                let at = handle.id().0 as int;
                let over = (*s)@.current is Stopped || (*s)@.current is Finished;
                &&& touches_only((*s)@, final(s)@, handle.id())
                &&& final(s)@.tasks[at] == (TaskView {
                    detached: !over || (*s)@.tasks[at].detached,
                    ..(*s)@.tasks[at]
                })
            },
{
}

/// What is asked about the tasks is what the execution holds.
pub proof fn law_what_is_asked_is_what_is_there<V, W>(id: TaskId)
    ensures
        forall|s: &ExecutionState<V, W>, task: &Task<V, W>|
            #[trigger] call_ensures(ExecutionState::<V, W>::get, (s, id), task) ==> task@
                == s@.tasks[id.0 as int],
        forall|s: &ExecutionState<V, W>, n: usize|
            #[trigger] call_ensures(ExecutionState::<V, W>::task_count, (s,), n) ==> n
                == s@.tasks.len(),
        forall|s: &ExecutionState<V, W>, over: bool|
            #[trigger] call_ensures(ExecutionState::<V, W>::is_finished, (s,), over) ==> over == (
            s@.current is Stopped || s@.current is Finished),
        forall|s: &ExecutionState<V, W>, me: Option<TaskId>|
            #[trigger] call_ensures(get_current_task::<V, W>, (Some(s),), me) ==> me
                == match s@.current {
                CurrentTask::Running(me) => Some(me),
                _ => None,
            },
        forall|me: Option<TaskId>|
            #[trigger] call_ensures(
                get_current_task::<V, W>,
                (None::<&ExecutionState<V, W>>,),
                me,
            ) ==> me is None,
        forall|s: &ExecutionState<V, W>, c: VectorClock|
            #[trigger] call_ensures(clock_for::<V, W>, (s, id), c) ==> c@
                == s@.tasks[id.0 as int].clock,
        forall|s: &ExecutionState<V, W>, c: VectorClock|
            s@.current is Running && #[trigger] call_ensures(clock::<V, W>, (s,), c) ==> c@
                == s@.tasks[s@.current->Running_0.0 as int].clock,
        forall|s: &ExecutionState<V, W>, me: Option<TaskId>|
            #[trigger] call_ensures(ExecutionState::<V, W>::try_current, (s,), me) ==> me
                == match s@.current {
                CurrentTask::Running(me) => Some(me),
                _ => None,
            },
        forall|s: &ExecutionState<V, W>, me: TaskId|
            s@.current is Running && #[trigger] call_ensures(
                ExecutionState::<V, W>::current,
                (s,),
                me,
            ) ==> me == s@.current->Running_0,
        forall|s: &ExecutionState<V, W>, size: usize|
            #[trigger] call_ensures(ExecutionState::<V, W>::stack_size, (s,), size) ==> size
                == s@.stack_size,
        forall|s: &ExecutionState<V, W>, n: usize|
            #[trigger] call_ensures(ExecutionState::<V, W>::context_switches, (s,), n) ==> n
                == s@.context_switches,
        forall|s: &ExecutionState<V, W>, n: usize|
            #[trigger] call_ensures(context_switches::<V, W>, (s,), n) ==> n
                == s@.context_switches,
        forall|s: &ExecutionState<V, W>, record: &Schedule|
            #[trigger] call_ensures(ExecutionState::<V, W>::recorded, (s,), record) ==> record.seed
                == s@.seed && record.steps@ == s@.steps,
        forall|task: &Task<V, W>, c: &VectorClock|
            #[trigger] call_ensures(Task::<V, W>::clock, (task,), c) ==> c@ == task@.clock,
        forall|task: &Task<V, W>, offered: bool|
            #[trigger] call_ensures(Task::<V, W>::offered, (task,), offered) ==> offered == (
            task@.state is Runnable || task@.state == (TaskState::Blocked {
                allow_spurious_wakeups: true,
            })),
        forall|task: &Task<V, W>, state: TaskState|
            #[trigger] call_ensures(Task::<V, W>::state, (task,), state) ==> state == task@.state,
        forall|task: &Task<V, W>, finished: bool|
            #[trigger] call_ensures(Task::<V, W>::finished, (task,), finished) ==> finished == (
            task@.state is Finished),
        forall|task: &Task<V, W>, detached: bool|
            #[trigger] call_ensures(Task::<V, W>::detached, (task,), detached) ==> detached
                == task@.detached,
        forall|task: &Task<V, W>, aborted: bool|
            #[trigger] call_ensures(Task::<V, W>::aborted, (task,), aborted) ==> aborted
                == task@.aborted,
        forall|task: &Task<V, W>, known: bool|
            #[trigger] call_ensures(Task::<V, W>::has_result, (task,), known) ==> known == (
            task@.result is Some),
        forall|task: &Task<V, W>, tag: Tag|
            #[trigger] call_ensures(Task::<V, W>::tag, (task,), tag) ==> tag == task@.tag,
{
}

/// A new execution has nothing but the main task and the record that it was given.
pub proof fn law_what_a_new_execution_holds<V, W>(
    stack_size: usize,
    schedule: Schedule,
    state: ExecutionState<V, W>,
)
    requires
        call_ensures(ExecutionState::<V, W>::new, (stack_size, schedule), state),
    ensures
        state@.tasks.len() == 1,
        is_untouched(state@.tasks[0]),
        state@.tasks[0].tag == Tag(0),
        state@.tasks[0].clock.len() == 1,
        state@.tasks[0].clock[0] == 0,
        state@.current is NotStarted,
        !state@.yield_requested,
        state@.context_switches == 0,
        state@.seed == schedule.seed,
        state@.steps == schedule.steps@,
        state@.stack_size == stack_size,
{
}

/// A waker that is called keeps its task from falling asleep, once, and lets it run if it sleeps. It
/// does not let a blocked task go on, and does nothing to a task that has finished or when the
/// execution is over.
pub proof fn law_what_calling_a_waker_does<V, W>(id: TaskId)
    ensures
        forall|s: &mut ExecutionState<V, W>|
            (*s)@.wf() && id.0 < (*s)@.tasks.len() && #[trigger] call_ensures(
                ExecutionState::<V, W>::wake,
                (s, id),
                (),
            ) ==> {
                let before = (*s)@.tasks[id.0 as int];
                let after = final(s)@.tasks[id.0 as int];
                let late = (*s)@.current is Stopped || (*s)@.current is Finished || before.state
                    is Finished;
                &&& touches_only((*s)@, final(s)@, id)
                &&& after == (TaskView {
                    woken: before.woken || !late,
                    state: if before.state is Sleeping && !late {
                        TaskState::Runnable
                    } else {
                        before.state
                    },
                    ..before
                })
            },
{
}

/// A task that is about to sleep does so if its waker was not called since it last was, and goes on
/// if it was.
pub proof fn law_what_being_about_to_sleep_does<V, W>()
    ensures
        forall|s: &mut ExecutionState<V, W>|
            (*s)@.wf() && (*s)@.current is Running && #[trigger] call_ensures(
                ExecutionState::<V, W>::sleep_unless_woken,
                (s,),
                (),
            ) ==> {
                let me = (*s)@.current->Running_0;
                let before = (*s)@.tasks[me.0 as int];
                &&& touches_only((*s)@, final(s)@, me)
                &&& final(s)@.tasks[me.0 as int] == (TaskView {
                    woken: false,
                    state: if before.woken {
                        before.state
                    } else {
                        TaskState::Sleeping
                    },
                    ..before
                })
            },
{
}

/// A task that blocks is blocked in the way that was asked for, one that is let go on is runnable,
/// and one whose function returns has finished; nothing else changes.
pub proof fn law_what_blocking_unblocking_and_returning_do<V, W>(spurious: bool, id: TaskId)
    ensures
        forall|s: &mut ExecutionState<V, W>|
            (*s)@.wf() && (*s)@.current is Running && #[trigger] call_ensures(
                ExecutionState::<V, W>::block,
                (s, spurious),
                (),
            ) ==> {
                let me = (*s)@.current->Running_0;
                &&& touches_only((*s)@, final(s)@, me)
                &&& final(s)@.tasks[me.0 as int] == (TaskView {
                    state: TaskState::Blocked { allow_spurious_wakeups: spurious },
                    ..(*s)@.tasks[me.0 as int]
                })
            },
        forall|s: &mut ExecutionState<V, W>|
            (*s)@.wf() && id.0 < (*s)@.tasks.len() && #[trigger] call_ensures(
                ExecutionState::<V, W>::unblock,
                (s, id),
                (),
            ) ==> {
                &&& touches_only((*s)@, final(s)@, id)
                &&& final(s)@.tasks[id.0 as int] == (TaskView {
                    state: TaskState::Runnable,
                    ..(*s)@.tasks[id.0 as int]
                })
            },
        forall|s: &mut ExecutionState<V, W>|
            (*s)@.wf() && (*s)@.current is Running && #[trigger] call_ensures(
                ExecutionState::<V, W>::finish,
                (s,),
                (),
            ) ==> {
                let me = (*s)@.current->Running_0;
                &&& touches_only((*s)@, final(s)@, me)
                &&& final(s)@.tasks[me.0 as int] == (TaskView {
                    state: TaskState::Finished,
                    ..(*s)@.tasks[me.0 as int]
                })
            },
{
}

/// The exit of the current task truncates the execution exactly if the task is waited for, no other
/// one that is waited for is unfinished, and some other one is.
pub proof fn law_when_exits_are_said_to_truncate<V, W>()
    ensures
        forall|s: &ExecutionState<V, W>, truncates: bool|
            #[trigger] call_ensures(ExecutionState::<V, W>::exit_truncates, (s,), truncates)
                ==> truncates == {
                &&& s@.current is Running
                &&& !s@.tasks[s@.current->Running_0.0 as int].detached
                &&& forall|i: int|
                    0 <= i < s@.tasks.len() && i != s@.current->Running_0.0 ==> (
                    #[trigger] s@.tasks[i]).state is Finished || s@.tasks[i].detached
                &&& exists|i: int|
                    0 <= i < s@.tasks.len() && i != s@.current->Running_0.0 && !((
                    #[trigger] s@.tasks[i]).state is Finished)
            },
{
}

/// A local value that a task initialized is the last of its local values, and cannot be initialized
/// by it again; what other tasks can initialize is not affected.
pub proof fn law_local_values_are_initialized_once<V, W>(key: usize)
    ensures
        forall|s: &ExecutionState<V, W>, ok: bool|
            #[trigger] call_ensures(ExecutionState::<V, W>::can_init_local, (s, key), ok) ==> ok
                == !s@.tasks[s@.current->Running_0.0 as int].locals.keys.contains(key),
        forall|s: &mut ExecutionState<V, W>|
            (*s)@.wf() && (*s)@.current is Running && #[trigger] call_ensures(
                ExecutionState::<V, W>::init_local,
                (s, key),
                (),
            ) ==> {
                let me = (*s)@.current->Running_0;
                let before = (*s)@.tasks[me.0 as int];
                let after = final(s)@.tasks[me.0 as int];
                &&& touches_only((*s)@, final(s)@, me)
                &&& after.locals.keys == before.locals.keys.push(key)
                &&& after.locals.keys.contains(key)
                &&& after.locals.destroyed == before.locals.destroyed
                &&& (TaskView { locals: before.locals, ..after }) == before
            },
{
    assert forall|keys: Seq<usize>| (#[trigger] keys.push(key)).contains(key) by {
        assert(keys.push(key)[keys.len() as int] == key);
    }
}

/// A call of `spawn` comes to a scheduling point first, with nothing created. When it goes on it
/// creates one task, which nobody has touched, with the tag of the one that spawns it and the
/// next id, and hands out its handle, its body and the size of its stack.
pub proof fn law_what_spawning_does<V, W>()
    ensures
        forall|s: &mut ExecutionState<V, W>, step: Step<Spawned<V>>|
            #[trigger] call_ensures(spawn::<V, W>, (s, Event::Called), step) ==> step is Switch
                && final(s)@ == (*s)@,
        forall|s: &mut ExecutionState<V, W>, step: Step<Spawned<V>>|
            (*s)@.wf() && (*s)@.current is Running && #[trigger] call_ensures(
                spawn::<V, W>,
                (s, Event::Resumed),
                step,
            ) ==> {
                let me = (*s)@.current->Running_0;
                let n = (*s)@.tasks.len() as int;
                let parent = (*s)@.tasks[me.0 as int];
                &&& step matches Step::Done(spawned)
                &&& spawned.handle.id().0 == n
                &&& spawned.wrapper.stage is Idle
                &&& spawned.stack_size == (*s)@.stack_size
                &&& final(s)@.tasks.len() == n + 1
                &&& touches_only(
                    (*s)@,
                    ExecutionView { tasks: final(s)@.tasks.take(n), ..final(s)@ },
                    me,
                )
                &&& is_untouched(final(s)@.tasks[n])
                &&& final(s)@.tasks[n].tag == parent.tag
                &&& final(s)@.tasks[n].clock == final(s)@.tasks[me.0 as int].clock
                &&& (TaskView { clock: parent.clock, ..final(s)@.tasks[me.0 as int] }) == parent
                &&& parent.clock[me.0 as int] < u32::MAX ==> final(s)@.tasks[n].clock[me.0 as int]
                    == parent.clock[me.0 as int] + 1
            },
        forall|handle: &JoinHandle<V>, id: TaskId|
            #[trigger] call_ensures(JoinHandle::<V>::task_id, (handle,), id) ==> id
                == handle.id(),
{
    assert forall|s: &mut ExecutionState<V, W>|
        (*s)@.wf() && (*s)@.current is Running && (*s)@.tasks[(
        *s)@.current->Running_0.0 as int].clock[(*s)@.current->Running_0.0 as int]
            < u32::MAX implies (#[trigger] (*s)@.spawned()).tasks[(
    *s)@.tasks.len() as int].clock[(*s)@.current->Running_0.0 as int] == (*s)@.tasks[(
    *s)@.current->Running_0.0 as int].clock[(*s)@.current->Running_0.0 as int] + 1 by {
        law_what_a_spawn_does((*s)@);
    }
}

/// A call of `abort` comes to a scheduling point first, unless the execution is over, with nothing
/// done. When it goes on the abort is remembered and the task woken, unless it has finished.
pub proof fn law_what_aborting_does<V, W>()
    ensures
        forall|handle: &JoinHandle<V>, s: &mut ExecutionState<V, W>, step: Step<()>|
            #[trigger] call_ensures(
                JoinHandle::<V>::abort::<W>,
                (handle, s, Event::Called),
                step,
            ) ==> {
                &&& final(s)@ == (*s)@
                &&& step is Switch <==> !((*s)@.current is Stopped) && !((*s)@.current is Finished)
            },
        forall|handle: &JoinHandle<V>, s: &mut ExecutionState<V, W>, step: Step<()>|
            (*s)@.wf() && handle.id().0 < (*s)@.tasks.len() && #[trigger] call_ensures(
                JoinHandle::<V>::abort::<W>,
                (handle, s, Event::Resumed),
                step,
            ) ==> {
                let at = handle.id().0 as int;
                let before = (*s)@.tasks[at];
                let late = (*s)@.current is Stopped || (*s)@.current is Finished || before.state
                    is Finished;
                &&& step is Done
                &&& touches_only((*s)@, final(s)@, handle.id())
                &&& final(s)@.tasks[at] == (TaskView {
                    aborted: before.aborted || !late,
                    woken: before.woken || !late,
                    state: if before.state is Sleeping && !late {
                        TaskState::Runnable
                    } else {
                        before.state
                    },
                    ..before
                })
            },
{
}

/// A poll of a join handle gives the result if it is there, and takes it; if not, the task that polls
/// is the one that waits from then on, with the waker of the poll.
pub proof fn law_what_polling_a_handle_does<V, W>(waker: W)
    ensures
        forall|
            handle: &mut JoinHandle<V>,
            s: &mut ExecutionState<V, W>,
            poll: Poll<Result<V, JoinError>>,
        |
            (*s)@.wf() && (*handle).id().0 < (*s)@.tasks.len() && #[trigger] call_ensures(
                JoinHandle::<V>::poll::<W>,
                (handle, s, waker),
                poll,
            ) ==> {
                let id = (*handle).id();
                let before = (*s)@.tasks[id.0 as int];
                let after = final(s)@.tasks[id.0 as int];
                &&& final(handle).id() == id
                &&& poll == match before.result {
                    Some(result) => Poll::Ready(result),
                    None => Poll::Pending,
                }
                &&& after.result is None
                &&& after.state == before.state
                &&& before.result is None ==> {
                    &&& touches_only((*s)@, final(s)@, id)
                    &&& after == (TaskView {
                        waiter: Some((*s)@.current->Running_0),
                        waker: Some(waker),
                        ..before
                    })
                }
                &&& final(s)@ == (ExecutionView { tasks: final(s)@.tasks, ..(*s)@ })
                &&& final(s)@.tasks.len() == (*s)@.tasks.len()
                &&& before.result is Some && !((*s)@.current is Running) ==> {
                    &&& touches_only((*s)@, final(s)@, id)
                    &&& after == (TaskView { result: None, ..before })
                }
                &&& before.result is Some && (*s)@.current is Running ==> forall|i: int|
                    0 <= i < (*s)@.tasks.len() ==> #[trigger] final(s)@.tasks[i] == (TaskView {
                        result: if i == id.0 {
                            None
                        } else {
                            (*s)@.tasks[i].result
                        },
                        clock: if i == (*s)@.current->Running_0.0 {
                            final(s)@.tasks[i].clock
                        } else {
                            (*s)@.tasks[i].clock
                        },
                        ..(*s)@.tasks[i]
                    })
                &&& before.result is Some && (*s)@.current is Running ==> {
                    let me = (*s)@.current->Running_0;
                    let mine = (*s)@.tasks[me.0 as int].clock;
                    forall|i: int|
                        #![trigger entry(before.clock, i)]
                        entry(final(s)@.tasks[me.0 as int].clock, i) == if entry(mine, i) < entry(
                            before.clock,
                            i,
                        ) {
                            entry(before.clock, i)
                        } else {
                            entry(mine, i)
                        }
                }
            },
{
}

/// A poll of the body of a task goes to its future, or drops it if the abort of the task was asked
/// for; a future that is not ready leaves everything as it was.
pub proof fn law_what_polling_a_body_does<V, W>()
    ensures
        forall|
            wrapper: &mut Wrapper<V>,
            s: &mut ExecutionState<V, W>,
            action: WrapperAction<W>,
        |
            #[trigger] call_ensures(
                Wrapper::<V>::poll::<W>,
                (wrapper, s, WrapperEvent::Poll),
                action,
            ) ==> {
                let aborted = (*s)@.tasks[(*s)@.current->Running_0.0 as int].aborted;
                &&& final(s)@ == (*s)@
                &&& aborted ==> action is DropFuture && final(wrapper).stage is Dropping
                &&& !aborted ==> action is PollFuture && final(wrapper).stage is Polling
            },
        forall|
            wrapper: &mut Wrapper<V>,
            s: &mut ExecutionState<V, W>,
            action: WrapperAction<W>,
        |
            #[trigger] call_ensures(
                Wrapper::<V>::poll::<W>,
                (wrapper, s, WrapperEvent::FuturePolled(Poll::Pending)),
                action,
            ) ==> final(s)@ == (*s)@ && action is Pending && final(wrapper).stage is Idle,
{
}

/// When it is settled what comes of a task, the local values that are left are handed out one at a
/// time, the oldest first, and then the result is published, and the waker of who waits is handed
/// out.
pub proof fn law_what_settling_a_body_does<V, W>(
    event: WrapperEvent<V>,
    result: Result<V, JoinError>,
)
    ensures
        forall|
            wrapper: &mut Wrapper<V>,
            s: &mut ExecutionState<V, W>,
            action: WrapperAction<W>,
        |
            (*s)@.wf() && (*s)@.current is Running && settles((*wrapper).stage, event, result)
                && #[trigger] call_ensures(
                Wrapper::<V>::poll::<W>,
                (wrapper, s, event),
                action,
            ) ==> {
                let me = (*s)@.current->Running_0;
                let before = (*s)@.tasks[me.0 as int];
                let after = final(s)@.tasks[me.0 as int];
                if before.locals.destroyed < before.locals.keys.len() {
                    &&& final(wrapper).stage == WrapperStage::Draining(result)
                    &&& action == WrapperAction::<W>::DropLocal(
                        before.locals.keys[before.locals.destroyed as int],
                    )
                    &&& touches_only((*s)@, final(s)@, me)
                    &&& after.locals.keys == before.locals.keys
                    &&& after.locals.destroyed == before.locals.destroyed + 1
                    &&& (TaskView { locals: before.locals, ..after }) == before
                } else {
                    &&& final(wrapper).stage is Done
                    &&& action == WrapperAction::Ready(before.waker)
                    &&& after.result == Some(result)
                    &&& after.waiter is None
                    &&& after.waker is None
                    &&& before.waiter != Some(me) ==> after == (TaskView {
                        result: Some(result),
                        waiter: None,
                        waker: None,
                        ..before
                    })
                    &&& final(s)@.tasks.len() == (*s)@.tasks.len()
                    &&& forall|i: int|
                        0 <= i < (*s)@.tasks.len() && i != me.0 ==> {
                            let other = (*s)@.tasks[i];
                            let told = before.waiter == Some(TaskId(i as usize)) && !(other.state
                                is Finished) && i <= usize::MAX;
                            #[trigger] final(s)@.tasks[i] == if told {
                                TaskView {
                                    woken: true,
                                    state: if other.state is Sleeping {
                                        TaskState::Runnable
                                    } else {
                                        other.state
                                    },
                                    ..other
                                }
                            } else {
                                other
                            }
                        }
                    &&& final(s)@ == (ExecutionView { tasks: final(s)@.tasks, ..(*s)@ })
                }
            },
{
}

/// `block_on` comes to a scheduling point when it is called and after each poll that was not ready;
/// in that case its task sleeps meanwhile, unless its waker was called. When it goes on it polls,
/// with the waker of its task, and when the future is ready it returns the value.
pub proof fn law_what_blocking_on_a_future_does<V, W, T>(value: T)
    ensures
        forall|s: &mut ExecutionState<V, W>, action: BlockOnAction<T>|
            #[trigger] call_ensures(
                block_on::<V, W, T>,
                (s, BlockOnEvent::Called),
                action,
            ) ==> action is Switch && final(s)@ == (*s)@,
        forall|s: &mut ExecutionState<V, W>, action: BlockOnAction<T>|
            #[trigger] call_ensures(
                block_on::<V, W, T>,
                (s, BlockOnEvent::Resumed),
                action,
            ) ==> action == (BlockOnAction::<T>::Poll { waker: (*s)@.current->Running_0 })
                && final(s)@ == (*s)@,
        forall|s: &mut ExecutionState<V, W>, action: BlockOnAction<T>|
            #[trigger] call_ensures(
                block_on::<V, W, T>,
                (s, BlockOnEvent::Polled(Poll::Ready(value))),
                action,
            ) ==> action == BlockOnAction::Return(value) && final(s)@ == (*s)@,
        forall|s: &mut ExecutionState<V, W>, action: BlockOnAction<T>|
            (*s)@.wf() && (*s)@.current is Running && #[trigger] call_ensures(
                block_on::<V, W, T>,
                (s, BlockOnEvent::Polled(Poll::Pending)),
                action,
            ) ==> {
                let me = (*s)@.current->Running_0;
                let before = (*s)@.tasks[me.0 as int];
                &&& action is Switch
                &&& touches_only((*s)@, final(s)@, me)
                &&& final(s)@.tasks[me.0 as int] == (TaskView {
                    woken: false,
                    state: if before.woken {
                        before.state
                    } else {
                        TaskState::Sleeping
                    },
                    ..before
                })
            },
{
}

/// A `yield_now` is not ready at its first poll, which asks to yield and to be woken, and ready at
/// each later one, which does nothing.
pub proof fn law_what_yielding_does<V, W>()
    ensures
        forall|future: YieldNow|
            #[trigger] call_ensures(yield_now, (), future) ==> !future.yielded,
        forall|future: &mut YieldNow, s: &mut ExecutionState<V, W>, poll: YieldPoll|
            #[trigger] call_ensures(YieldNow::poll::<V, W>, (future, s), poll) ==> {
                &&& final(future).yielded
                &&& (*future).yielded ==> poll is Ready && final(s)@ == (*s)@
                &&& !(*future).yielded ==> poll is WakeThenPending && final(s)@ == (
                ExecutionView { yield_requested: true, ..(*s)@ })
            },
{
}

/// A search that was just made has no execution behind it. It starts another execution exactly while
/// the limit, if there is one, is above the number of those that it has started, and some choice that
/// it remembers was not the last option, unless there was no execution yet. The record of a new
/// execution is empty, with the one seed of the search, and its random values are those of that seed
/// from the beginning.
pub proof fn law_how_executions_are_started(
    max_iterations: Option<usize>,
    allow_random_data: bool,
    n: nat,
)
    ensures
        forall|dfs: DfsScheduler|
            #[trigger] call_ensures(
                DfsScheduler::new,
                (max_iterations, allow_random_data),
                dfs,
            ) ==> {
                &&& dfs@.max_iterations == max_iterations
                &&& dfs@.allow_random_data == allow_random_data
                &&& dfs@.iterations == 0
                &&& dfs@.levels.len() == 0
                &&& dfs@.steps == 0
                &&& (dfs@.random)(n) == pcg_seeded_draw(0x12345678, n)
            },
        forall|dfs: &mut DfsScheduler, schedule: Option<Schedule>|
            #[trigger] call_ensures(DfsScheduler::new_execution, (dfs,), schedule) ==> {
                &&& schedule is Some <==> {
                    &&& (*dfs)@.max_iterations matches Some(limit) ==> (*dfs)@.iterations < limit
                    &&& (*dfs)@.iterations == 0 || exists|j: int|
                        0 <= j < (*dfs)@.levels.len() && !(#[trigger] (*dfs)@.levels[j]).1
                }
                &&& schedule is None ==> final(dfs)@ == (*dfs)@
                &&& schedule matches Some(record) ==> {
                    &&& record.seed == 0x12345678
                    &&& record.steps@.len() == 0
                    &&& final(dfs)@.iterations == (*dfs)@.iterations + 1
                    &&& final(dfs)@.steps == 0
                    &&& final(dfs)@.levels == (*dfs)@.levels
                    &&& final(dfs)@.max_iterations == (*dfs)@.max_iterations
                    &&& final(dfs)@.allow_random_data == (*dfs)@.allow_random_data
                    &&& (final(dfs)@.random)(n) == pcg_seeded_draw(0x12345678, n)
                }
            },
        forall|dfs: &mut DfsScheduler, value: u64|
            #[trigger] call_ensures(DfsScheduler::next_u64, (dfs,), value) ==> {
                &&& value == ((*dfs)@.random)(0)
                &&& (final(dfs)@.random)(n) == ((*dfs)@.random)(n + 1)
                &&& final(dfs)@ == (DfsView { random: final(dfs)@.random, ..(*dfs)@ })
            },
{
}

/// At a point that no execution has come to, the first option is chosen. At one that is remembered,
/// the choice is the same while options are left further down, and otherwise the option behind it;
/// what was further down is forgotten then.
pub proof fn law_how_tasks_are_chosen(
    runnable: &[TaskId],
    current: Option<TaskId>,
    is_yielding: bool,
    at: int,
)
    ensures
        forall|dfs: &mut DfsScheduler, task: Option<TaskId>|
            #[trigger] call_ensures(
                DfsScheduler::next_task,
                (dfs, runnable, current, is_yielding),
                task,
            ) ==> {
                let here = (*dfs)@.steps as int;
                let levels = (*dfs)@.levels;
                let after = final(dfs)@.levels;
                let more_below = exists|j: int|
                    here < j < levels.len() && !(#[trigger] levels[j]).1;
                &&& task is Some
                &&& final(dfs)@.steps == here + 1
                &&& final(dfs)@ == (DfsView {
                    steps: final(dfs)@.steps,
                    levels: after,
                    ..(*dfs)@
                })
                &&& here >= levels.len() ==> {
                    &&& task == Some(runnable@[0])
                    &&& after == levels.push((runnable@[0], runnable@.len() == 1))
                }
                &&& here < levels.len() && more_below ==> task == Some(levels[here].0) && after
                    == levels
                &&& here < levels.len() && !more_below && is_first_at(
                    runnable@,
                    levels[here].0,
                    at,
                ) ==> {
                    &&& task == Some(runnable@[at + 1])
                    &&& after == levels.take(here).push(
                        (runnable@[at + 1], at + 2 == runnable@.len()),
                    )
                }
            },
{
    assert forall|dfs: &mut DfsScheduler, task: Option<TaskId>|
        #[trigger] call_ensures(
            DfsScheduler::next_task,
            (dfs, runnable, current, is_yielding),
            task,
        ) implies {
        let here = (*dfs)@.steps as int;
        let levels = (*dfs)@.levels;
        let after = final(dfs)@.levels;
        let more_below = exists|j: int| here < j < levels.len() && !(#[trigger] levels[j]).1;
        &&& task is Some
        &&& final(dfs)@.steps == here + 1
        &&& final(dfs)@ == (DfsView { steps: final(dfs)@.steps, levels: after, ..(*dfs)@ })
        &&& here >= levels.len() ==> {
            &&& task == Some(runnable@[0])
            &&& after == levels.push((runnable@[0], runnable@.len() == 1))
        }
        &&& here < levels.len() && more_below ==> task == Some(levels[here].0) && after == levels
        &&& here < levels.len() && !more_below && is_first_at(runnable@, levels[here].0, at) ==> {
            &&& task == Some(runnable@[at + 1])
            &&& after == levels.take(here).push((runnable@[at + 1], at + 2 == runnable@.len()))
        }
    } by {
        let here = (*dfs)@.steps as int;
        let levels = (*dfs)@.levels;
        let after = final(dfs)@.levels;
        law_how_a_choice_is_made((*dfs)@, runnable@, at);
        if here < levels.len() && is_first_at(runnable@, levels[here].0, at) && !(exists|j: int|
            here < j < levels.len() && !(#[trigger] levels[j]).1) {
            assert(after =~= levels.take(here).push(
                (runnable@[at + 1], at + 2 == runnable@.len()),
            )) by {
                assert forall|i: int| 0 <= i < here implies after[i] == levels.take(here)[i] by {
                    assert(after.take(here)[i] == after[i]);
                }
            }
        }
    }
}

/// A choice can be made at a new point if there is an option, and where the choice is the same as
/// before in any case. Where it has to change, one can be made exactly if the old choice was not
/// marked as the last option and some option stands behind it.
pub proof fn law_when_tasks_can_be_chosen(runnable: &[TaskId], at: int, index: usize)
    ensures
        forall|dfs: &DfsScheduler, ok: bool|
            #[trigger] call_ensures(DfsScheduler::can_choose, (dfs, runnable), ok) ==> {
                let here = dfs@.steps as int;
                let levels = dfs@.levels;
                let more_below = exists|j: int|
                    here < j < levels.len() && !(#[trigger] levels[j]).1;
                &&& here >= levels.len() ==> ok == (runnable@.len() > 0)
                &&& here < levels.len() && more_below ==> ok
                &&& here < levels.len() && !more_below && is_first_at(
                    runnable@,
                    levels[here].0,
                    at,
                ) ==> ok == (!levels[here].1 && at + 1 < runnable@.len())
                &&& here < levels.len() && !more_below && !runnable@.contains(levels[here].0)
                    ==> !ok
            },
        forall|dfs: &DfsScheduler, more: bool|
            #[trigger] call_ensures(DfsScheduler::has_more_choices, (dfs, index), more) ==> more
                == exists|j: int| index <= j < dfs@.levels.len() && !(#[trigger] dfs@.levels[j]).1,
{
    assert forall|dfs: &DfsScheduler, ok: bool|
        #[trigger] call_ensures(DfsScheduler::can_choose, (dfs, runnable), ok) implies {
        let here = dfs@.steps as int;
        let levels = dfs@.levels;
        let more_below = exists|j: int| here < j < levels.len() && !(#[trigger] levels[j]).1;
        &&& here >= levels.len() ==> ok == (runnable@.len() > 0)
        &&& here < levels.len() && more_below ==> ok
        &&& here < levels.len() && !more_below && is_first_at(runnable@, levels[here].0, at) ==> ok
            == (!levels[here].1 && at + 1 < runnable@.len())
        &&& here < levels.len() && !more_below && !runnable@.contains(levels[here].0) ==> !ok
    } by {
        law_how_a_choice_is_made(dfs@, runnable@, at);
    }
}

/// A clock that is asked for a task that it does not know answers 0. One that is told of another
/// clock knows the larger of both counters of each task, one that counts an event counts it for one
/// task, and one that makes room counts nothing.
pub proof fn law_what_clocks_answer(task: TaskId, other: &VectorClock, i: int)
    ensures
        forall|c: VectorClock| #[trigger] call_ensures(VectorClock::new, (), c) ==> c@.len() == 0,
        forall|c: &VectorClock, n: u32|
            #[trigger] call_ensures(VectorClock::get, (c, task), n) ==> n == if task.0 < c@.len() {
                c@[task.0 as int]
            } else {
                0
            },
        forall|c: &VectorClock, n: usize|
            #[trigger] call_ensures(VectorClock::len, (c,), n) ==> n == c@.len(),
        forall|c: &mut VectorClock|
            task.0 < (*c)@.len() && (*c)@[task.0 as int] < u32::MAX && #[trigger] call_ensures(
                VectorClock::increment,
                (c, task),
                (),
            ) ==> {
                &&& final(c)@.len() == (*c)@.len()
                &&& final(c)@[task.0 as int] == (*c)@[task.0 as int] + 1
                &&& i != task.0 ==> entry(final(c)@, i) == entry((*c)@, i)
            },
        forall|c: &mut VectorClock|
            #[trigger] call_ensures(VectorClock::extend, (c, task), ()) ==> {
                &&& final(c)@.len() == if task.0 < (*c)@.len() {
                    (*c)@.len()
                } else {
                    task.0 as nat + 1
                }
                &&& entry(final(c)@, i) == entry((*c)@, i)
            },
        forall|c: &mut VectorClock|
            #[trigger] call_ensures(VectorClock::update, (c, other), ()) ==> {
                &&& final(c)@.len() == if (*c)@.len() < other@.len() {
                    other@.len()
                } else {
                    (*c)@.len()
                }
                &&& entry(final(c)@, i) == if entry((*c)@, i) < entry(other@, i) {
                    entry(other@, i)
                } else {
                    entry((*c)@, i)
                }
            },
{
}

} // verus!
