use shuttle::current::{
    clock, clock_for, context_switches, get_current_task, get_tag_for_current_task,
    set_tag_for_current_task, Tag, TaskId,
};
use shuttle::future::{
    block_on, spawn, yield_now, BlockOnAction, BlockOnEvent, Event, JoinError, JoinHandle, Poll,
    Spawned, Step, Wrapper, WrapperAction, WrapperEvent, YieldPoll,
};
use shuttle::runtime::clock::VectorClock;
use shuttle::runtime::execution::{ExecutionState, Offer};
use shuttle::runtime::task::TaskState;
use shuttle::scheduler::{Schedule, ScheduleStep};

type State = ExecutionState<u32, &'static str>;

const MAIN: TaskId = TaskId(0);

fn started() -> State {
    let mut state = State::new(0xf000, Schedule::new(7));
    run(&mut state, MAIN);
    state
}

/// One scheduling point at which `id` is chosen.
fn run(state: &mut State, id: TaskId) {
    match state.schedule() {
        Offer::Choose { runnable, .. } => assert!(runnable.contains(&id)),
        other => panic!("nothing to choose: {:?}", other),
    }
    state.advance(Some(id));
}

fn offered(state: &mut State) -> Vec<TaskId> {
    match state.schedule() {
        Offer::Choose { runnable, .. } => runnable,
        other => panic!("nothing to choose: {:?}", other),
    }
}

fn spawned(state: &mut State) -> (JoinHandle<u32>, Wrapper<u32>) {
    assert!(matches!(spawn(state, Event::Called), Step::Switch));
    match spawn(state, Event::Resumed) {
        Step::Done(Spawned { handle, wrapper, stack_size }) => {
            assert_eq!(stack_size, 0xf000);
            (handle, wrapper)
        }
        Step::Switch => panic!("there is one switch only"),
    }
}

fn poll_once(state: &mut State, wrapper: &mut Wrapper<u32>, answer: Poll<u32>) -> Option<Option<&'static str>> {
    assert!(matches!(wrapper.poll(state, WrapperEvent::Poll), WrapperAction::PollFuture));
    match wrapper.poll(state, WrapperEvent::FuturePolled(answer)) {
        WrapperAction::Pending => None,
        WrapperAction::Ready(waker) => Some(waker),
        other => panic!("unexpected {:?}", other),
    }
}

fn entries(clock: &VectorClock) -> Vec<u32> {
    (0..clock.len()).map(|i| clock.get(TaskId(i))).collect()
}

#[test]
fn an_execution_begins_with_the_main_task() {
    let mut state = State::new(0xf000, Schedule::new(7));
    assert_eq!(get_current_task(Some(&state)), None);
    assert_eq!(get_current_task::<u32, &'static str>(None), None);
    assert_eq!(context_switches(&state), 0);
    assert_eq!(offered(&mut state), vec![MAIN]);
    state.advance(Some(MAIN));
    assert_eq!(get_current_task(Some(&state)), Some(MAIN));
    assert_eq!(context_switches(&state), 1);
    assert_eq!(state.recorded().seed, 7);
    assert_eq!(state.recorded().steps, vec![ScheduleStep::Task(MAIN)]);
    assert_eq!(entries(&clock(&state)), vec![0]);
}

#[test]
fn context_switches_count_even_when_the_same_task_goes_on() {
    let mut state = started();
    let before = context_switches(&state);
    run(&mut state, MAIN);
    run(&mut state, MAIN);
    assert_eq!(context_switches(&state), before + 2);
}

#[test]
fn random_draws_are_recorded() {
    let mut state = started();
    state.record_draw();
    run(&mut state, MAIN);
    assert_eq!(
        state.recorded().steps,
        vec![ScheduleStep::Task(MAIN), ScheduleStep::Random, ScheduleStep::Task(MAIN)]
    );
}

#[test]
fn tags_are_replaced_and_inherited() {
    let mut state = started();
    assert_eq!(get_tag_for_current_task(&state), Tag::default());
    assert_eq!(set_tag_for_current_task(&mut state, Tag(5)), Tag(0));
    assert_eq!(set_tag_for_current_task(&mut state, Tag(6)), Tag(5));
    assert_eq!(get_tag_for_current_task(&state), Tag(6));
    let (handle, _) = spawned(&mut state);
    set_tag_for_current_task(&mut state, Tag(7));
    run(&mut state, handle.task_id());
    assert_eq!(get_tag_for_current_task(&state), Tag(6));
}

#[test]
fn spawn_numbers_tasks_and_orders_clocks() {
    let mut state = started();
    let (first, _) = spawned(&mut state);
    assert_eq!(first.task_id(), TaskId(1));
    assert_eq!(entries(&clock(&state)), vec![1, 0]);
    assert_eq!(entries(&clock_for(&state, TaskId(1))), vec![1, 0]);
    let (second, _) = spawned(&mut state);
    assert_eq!(second.task_id(), TaskId(2));
    assert_eq!(entries(&clock(&state)), vec![2, 0, 0]);
    assert_eq!(entries(&clock_for(&state, TaskId(1))), vec![1, 0]);
    assert_eq!(entries(&clock_for(&state, TaskId(2))), vec![2, 0, 0]);
    assert_eq!(offered(&mut state), vec![MAIN, TaskId(1), TaskId(2)]);
    state.advance(Some(TaskId(1)));
    let (third, _) = spawned(&mut state);
    assert_eq!(third.task_id(), TaskId(3));
    assert_eq!(entries(&clock(&state)), vec![1, 1, 0, 0]);
    assert_eq!(state.task_count(), 4);
}

#[test]
fn clocks_merge_entry_by_entry() {
    let mut a = VectorClock::new();
    a.extend(TaskId(1));
    a.increment(TaskId(1));
    let mut b = VectorClock::new();
    b.extend(TaskId(2));
    b.increment(TaskId(0));
    b.increment(TaskId(2));
    b.increment(TaskId(2));
    let mut c = a.clone();
    c.update(&b);
    assert_eq!(entries(&c), vec![1, 1, 2]);
    b.update(&a);
    assert_eq!(entries(&b), vec![1, 1, 2]);
    assert_eq!(a.get(TaskId(9)), 0);
}

#[test]
fn awaiting_a_task_gives_its_value_and_its_past() {
    let mut state = started();
    let (mut handle, mut wrapper) = spawned(&mut state);
    assert!(matches!(handle.poll(&mut state, "main"), Poll::Pending));
    assert!(matches!(
        block_on::<_, _, u32>(&mut state, BlockOnEvent::Polled(Poll::Pending)),
        BlockOnAction::Switch
    ));
    assert_eq!(state.get(MAIN).state(), TaskState::Sleeping);
    assert_eq!(offered(&mut state), vec![TaskId(1)]);
    state.advance(Some(TaskId(1)));
    let _ = spawned(&mut state);
    assert_eq!(poll_once(&mut state, &mut wrapper, Poll::Ready(42)), Some(Some("main")));
    assert_eq!(state.get(MAIN).state(), TaskState::Runnable);
    state.finish();
    run(&mut state, MAIN);
    assert_eq!(entries(&clock(&state)), vec![1, 0]);
    assert!(matches!(handle.poll(&mut state, "main"), Poll::Ready(Ok(42))));
    assert_eq!(entries(&clock(&state)), vec![1, 1, 0]);
}

#[test]
fn a_task_that_is_done_before_it_is_awaited_is_ready_at_once() {
    let mut state = started();
    let (mut handle, mut wrapper) = spawned(&mut state);
    run(&mut state, TaskId(1));
    assert_eq!(poll_once(&mut state, &mut wrapper, Poll::Pending), None);
    assert_eq!(poll_once(&mut state, &mut wrapper, Poll::Ready(3)), Some(None));
    state.finish();
    run(&mut state, MAIN);
    assert!(matches!(handle.poll(&mut state, "main"), Poll::Ready(Ok(3))));
}

#[test]
fn a_task_that_ends_while_its_waiter_is_still_polling_is_noticed() {
    let mut state = started();
    let (mut handle, mut wrapper) = spawned(&mut state);
    assert!(matches!(handle.poll(&mut state, "main"), Poll::Pending));
    // The waiter is preempted before it can go to sleep.
    run(&mut state, TaskId(1));
    poll_once(&mut state, &mut wrapper, Poll::Ready(1));
    state.finish();
    run(&mut state, MAIN);
    block_on::<_, _, u32>(&mut state, BlockOnEvent::Polled(Poll::Pending));
    assert_eq!(state.get(MAIN).state(), TaskState::Runnable);
}

#[test]
fn the_waker_of_the_last_poll_is_called() {
    let mut state = started();
    let (mut handle, mut wrapper) = spawned(&mut state);
    assert!(matches!(handle.poll(&mut state, "one"), Poll::Pending));
    assert!(matches!(handle.poll(&mut state, "two"), Poll::Pending));
    run(&mut state, TaskId(1));
    assert_eq!(poll_once(&mut state, &mut wrapper, Poll::Ready(1)), Some(Some("two")));
}

#[test]
fn a_waiter_that_has_finished_is_left_alone() {
    let mut state = started();
    let (mut handle, mut wrapper) = spawned(&mut state);
    assert!(matches!(handle.poll(&mut state, "main"), Poll::Pending));
    state.finish();
    run(&mut state, TaskId(1));
    poll_once(&mut state, &mut wrapper, Poll::Ready(1));
    assert_eq!(state.get(MAIN).state(), TaskState::Finished);
}

#[test]
fn a_blocked_waiter_stays_blocked() {
    let mut state = started();
    let (mut handle, mut wrapper) = spawned(&mut state);
    assert!(matches!(handle.poll(&mut state, "main"), Poll::Pending));
    state.block(false);
    run(&mut state, TaskId(1));
    poll_once(&mut state, &mut wrapper, Poll::Ready(1));
    assert_eq!(state.get(MAIN).state(), TaskState::Blocked { allow_spurious_wakeups: false });
    state.unblock(MAIN);
    assert_eq!(state.get(MAIN).state(), TaskState::Runnable);
}

#[test]
fn abort_cancels_a_sleeping_task_at_its_next_poll() {
    let mut state = started();
    let (mut handle, mut wrapper) = spawned(&mut state);
    run(&mut state, TaskId(1));
    assert_eq!(poll_once(&mut state, &mut wrapper, Poll::Pending), None);
    state.sleep_unless_woken();
    run(&mut state, MAIN);
    assert!(matches!(handle.abort(&mut state, Event::Called), Step::Switch));
    assert_eq!(state.get(TaskId(1)).state(), TaskState::Sleeping);
    assert!(matches!(handle.abort(&mut state, Event::Resumed), Step::Done(())));
    assert!(matches!(handle.abort(&mut state, Event::Resumed), Step::Done(())));
    assert_eq!(state.get(TaskId(1)).state(), TaskState::Runnable);
    run(&mut state, TaskId(1));
    assert!(matches!(wrapper.poll(&mut state, WrapperEvent::Poll), WrapperAction::DropFuture));
    assert!(matches!(
        wrapper.poll(&mut state, WrapperEvent::FutureDropped),
        WrapperAction::Ready(None)
    ));
    state.finish();
    run(&mut state, MAIN);
    assert!(matches!(
        handle.poll(&mut state, "main"),
        Poll::Ready(Err(JoinError::Cancelled))
    ));
}

#[test]
fn abort_of_a_task_that_is_done_does_nothing() {
    let mut state = started();
    let (mut handle, mut wrapper) = spawned(&mut state);
    run(&mut state, TaskId(1));
    poll_once(&mut state, &mut wrapper, Poll::Ready(9));
    state.finish();
    run(&mut state, MAIN);
    handle.abort(&mut state, Event::Resumed);
    assert_eq!(state.get(TaskId(1)).state(), TaskState::Finished);
    assert!(matches!(handle.poll(&mut state, "main"), Poll::Ready(Ok(9))));
}

#[test]
fn abort_stays_whatever_others_do() {
    let mut state = started();
    let (mut handle, mut wrapper) = spawned(&mut state);
    let (other, mut other_wrapper) = spawned(&mut state);
    handle.abort(&mut state, Event::Resumed);
    assert!(matches!(handle.poll(&mut state, "main"), Poll::Pending));
    run(&mut state, other.task_id());
    poll_once(&mut state, &mut other_wrapper, Poll::Ready(2));
    state.wake(handle.task_id());
    state.finish();
    run(&mut state, MAIN);
    other.drop(&mut state);
    run(&mut state, handle.task_id());
    assert!(matches!(wrapper.poll(&mut state, WrapperEvent::Poll), WrapperAction::DropFuture));
    assert!(matches!(
        wrapper.poll(&mut state, WrapperEvent::FutureDropped),
        WrapperAction::Ready(Some("main"))
    ));
    state.finish();
    run(&mut state, MAIN);
    assert!(matches!(handle.poll(&mut state, "main"), Poll::Ready(Err(JoinError::Cancelled))));
}

#[test]
fn abort_is_too_late_once_the_value_is_known() {
    let mut state = started();
    let (mut handle, mut wrapper) = spawned(&mut state);
    run(&mut state, TaskId(1));
    state.init_local(5);
    assert!(matches!(wrapper.poll(&mut state, WrapperEvent::Poll), WrapperAction::PollFuture));
    // The value is there, and a local value is being destroyed.
    assert!(matches!(
        wrapper.poll(&mut state, WrapperEvent::FuturePolled(Poll::Ready(3))),
        WrapperAction::DropLocal(5)
    ));
    run(&mut state, MAIN);
    handle.abort(&mut state, Event::Resumed);
    assert!(matches!(handle.poll(&mut state, "main"), Poll::Pending));
    run(&mut state, TaskId(1));
    assert!(matches!(
        wrapper.poll(&mut state, WrapperEvent::LocalDropped),
        WrapperAction::Ready(Some("main"))
    ));
    state.finish();
    run(&mut state, MAIN);
    handle.abort(&mut state, Event::Resumed);
    assert!(matches!(handle.poll(&mut state, "main"), Poll::Ready(Ok(3))));
}

#[test]
fn a_poll_that_is_ready_wins_over_an_abort_during_it() {
    let mut state = started();
    let (mut handle, mut wrapper) = spawned(&mut state);
    run(&mut state, TaskId(1));
    assert!(matches!(wrapper.poll(&mut state, WrapperEvent::Poll), WrapperAction::PollFuture));
    run(&mut state, MAIN);
    handle.abort(&mut state, Event::Resumed);
    run(&mut state, TaskId(1));
    assert!(matches!(
        wrapper.poll(&mut state, WrapperEvent::FuturePolled(Poll::Ready(4))),
        WrapperAction::Ready(None)
    ));
    assert!(matches!(handle.poll(&mut state, "late"), Poll::Ready(Ok(4))));
}

#[test]
fn the_waker_is_handed_out_though_its_task_has_finished() {
    let mut state = started();
    let (mut handle, mut wrapper) = spawned(&mut state);
    assert!(matches!(handle.poll(&mut state, "main"), Poll::Pending));
    state.finish();
    run(&mut state, TaskId(1));
    assert_eq!(poll_once(&mut state, &mut wrapper, Poll::Ready(1)), Some(Some("main")));
    assert_eq!(state.get(MAIN).state(), TaskState::Finished);
}

#[test]
fn abort_waits_for_a_blocked_task() {
    let mut state = started();
    let (handle, _) = spawned(&mut state);
    run(&mut state, TaskId(1));
    state.block(false);
    run(&mut state, MAIN);
    handle.abort(&mut state, Event::Resumed);
    assert_eq!(
        state.get(TaskId(1)).state(),
        TaskState::Blocked { allow_spurious_wakeups: false }
    );
    assert!(state.get(TaskId(1)).aborted());
}

#[test]
fn dropping_a_handle_detaches_the_task() {
    let mut state = started();
    let (handle, _) = spawned(&mut state);
    assert!(!state.exit_truncates());
    handle.drop(&mut state);
    assert!(state.get(TaskId(1)).detached());
    assert!(!state.get(TaskId(1)).aborted());
    assert!(state.exit_truncates());
    state.finish();
    assert!(matches!(state.schedule(), Offer::Finished));
    assert!(state.is_finished());
    assert_eq!(get_current_task(Some(&state)), None);
}

#[test]
fn handles_do_nothing_when_the_execution_is_over() {
    let mut state = started();
    let (handle, _) = spawned(&mut state);
    state.schedule();
    state.advance(None);
    assert!(state.is_finished());
    assert!(matches!(handle.abort(&mut state, Event::Called), Step::Done(())));
    handle.drop(&mut state);
    assert!(!state.get(TaskId(1)).detached());
    state.wake(TaskId(1));
    assert_eq!(state.get(TaskId(1)).state(), TaskState::Runnable);
}

#[test]
fn an_attached_task_keeps_the_execution_going() {
    let mut state = started();
    let _ = spawned(&mut state);
    state.finish();
    assert_eq!(offered(&mut state), vec![TaskId(1)]);
}

#[test]
fn sleeping_with_nobody_to_wake_is_a_deadlock() {
    let mut state = started();
    state.sleep_unless_woken();
    assert!(matches!(state.schedule(), Offer::Deadlock));
    assert!(state.is_finished());
}

#[test]
fn spurious_wakeups_are_offered_but_do_not_prevent_a_deadlock() {
    let mut state = started();
    let _ = spawned(&mut state);
    state.block(true);
    assert_eq!(offered(&mut state), vec![MAIN, TaskId(1)]);
    state.advance(Some(MAIN));
    assert_eq!(state.get(MAIN).state(), TaskState::Runnable);
    state.block(true);
    run(&mut state, TaskId(1));
    state.finish();
    assert!(matches!(state.schedule(), Offer::Deadlock));
}

#[test]
fn a_wake_before_sleep_is_not_lost() {
    let mut state = started();
    state.wake(MAIN);
    state.sleep_unless_woken();
    assert_eq!(state.get(MAIN).state(), TaskState::Runnable);
    // It is used up by that.
    state.sleep_unless_woken();
    assert_eq!(state.get(MAIN).state(), TaskState::Sleeping);
    state.wake(MAIN);
    assert_eq!(state.get(MAIN).state(), TaskState::Runnable);
}

#[test]
fn locals_are_destroyed_in_order_before_the_result_is_published() {
    let mut state = started();
    let (mut handle, mut wrapper) = spawned(&mut state);
    run(&mut state, TaskId(1));
    state.init_local(30);
    state.init_local(10);
    assert!(!state.can_init_local(10));
    assert!(state.can_init_local(20));
    wrapper.poll(&mut state, WrapperEvent::Poll);
    assert!(matches!(
        wrapper.poll(&mut state, WrapperEvent::FuturePolled(Poll::Ready(5))),
        WrapperAction::DropLocal(30)
    ));
    // A destructor may initialize another value, but not one that is destroyed.
    assert!(!state.can_init_local(30));
    state.init_local(20);
    assert!(matches!(
        wrapper.poll(&mut state, WrapperEvent::LocalDropped),
        WrapperAction::DropLocal(10)
    ));
    run(&mut state, MAIN);
    assert!(matches!(handle.poll(&mut state, "main"), Poll::Pending));
    run(&mut state, TaskId(1));
    assert!(matches!(
        wrapper.poll(&mut state, WrapperEvent::LocalDropped),
        WrapperAction::DropLocal(20)
    ));
    assert!(matches!(
        wrapper.poll(&mut state, WrapperEvent::LocalDropped),
        WrapperAction::Ready(Some("main"))
    ));
    run(&mut state, MAIN);
    assert!(matches!(handle.poll(&mut state, "main"), Poll::Ready(Ok(5))));
}

#[test]
fn block_on_polls_until_ready() {
    let mut state = started();
    let mut answers = vec![Poll::Pending, Poll::Pending, Poll::Ready("done")].into_iter();
    let mut event = BlockOnEvent::Called;
    let mut trace = Vec::new();
    let value = loop {
        match block_on(&mut state, event) {
            BlockOnAction::Switch => {
                trace.push("switch");
                state.wake(MAIN);
                run(&mut state, MAIN);
                event = BlockOnEvent::Resumed;
            }
            BlockOnAction::Poll { waker } => {
                assert_eq!(waker, MAIN);
                trace.push("poll");
                event = BlockOnEvent::Polled(answers.next().unwrap());
            }
            BlockOnAction::Return(value) => break value,
        }
    };
    assert_eq!(value, "done");
    assert_eq!(trace, vec!["switch", "poll", "switch", "poll", "switch", "poll"]);
}

#[test]
fn block_on_polls_with_the_waker_of_its_own_task() {
    let mut state = started();
    let (handle, _) = spawned(&mut state);
    run(&mut state, handle.task_id());
    match block_on::<_, _, u32>(&mut state, BlockOnEvent::Resumed) {
        BlockOnAction::Poll { waker } => assert_eq!(waker, handle.task_id()),
        other => panic!("unexpected {:?}", other),
    }
}

#[test]
fn waiting_survives_whatever_others_do() {
    let mut state = started();
    let (mut first, mut wrapper) = spawned(&mut state);
    let (mut second, _) = spawned(&mut state);
    assert!(matches!(first.poll(&mut state, "first"), Poll::Pending));
    assert!(matches!(second.poll(&mut state, "second"), Poll::Pending));
    set_tag_for_current_task(&mut state, Tag(1));
    state.init_local(3);
    state.sleep_unless_woken();
    run(&mut state, second.task_id());
    let (third, _) = spawned(&mut state);
    state.block(true);
    run(&mut state, third.task_id());
    state.unblock(second.task_id());
    third.abort(&mut state, Event::Resumed);
    second.drop(&mut state);
    run(&mut state, first.task_id());
    assert_eq!(state.get(MAIN).state(), TaskState::Sleeping);
    assert_eq!(poll_once(&mut state, &mut wrapper, Poll::Ready(8)), Some(Some("first")));
    assert_eq!(state.get(MAIN).state(), TaskState::Runnable);
    state.finish();
    run(&mut state, MAIN);
    assert!(matches!(first.poll(&mut state, "first"), Poll::Ready(Ok(8))));
}

#[test]
fn unblocking_ends_sleep_too() {
    let mut state = started();
    let (handle, _) = spawned(&mut state);
    state.sleep_unless_woken();
    run(&mut state, handle.task_id());
    state.unblock(MAIN);
    assert_eq!(state.get(MAIN).state(), TaskState::Runnable);
}

#[test]
fn a_spawned_future_that_is_pending_is_run_to_its_end() {
    let mut state = started();
    let (mut handle, mut wrapper) = spawned(&mut state);
    let id = handle.task_id();
    state.finish();
    for _ in 0..3 {
        assert_eq!(offered(&mut state), vec![id]);
        state.advance(Some(id));
        assert_eq!(poll_once(&mut state, &mut wrapper, Poll::Pending), None);
        state.wake(id);
        state.sleep_unless_woken();
    }
    run(&mut state, id);
    assert_eq!(poll_once(&mut state, &mut wrapper, Poll::Ready(6)), Some(None));
    state.finish();
    assert!(matches!(state.schedule(), Offer::Finished));
    assert!(matches!(handle.poll(&mut state, "late"), Poll::Ready(Ok(6))));
}

#[test]
fn yield_now_is_pending_once_and_tells_the_scheduler() {
    let mut state = started();
    let mut future = yield_now();
    assert_eq!(future.poll(&mut state), YieldPoll::WakeThenPending);
    state.wake(MAIN);
    state.sleep_unless_woken();
    assert!(matches!(state.schedule(), Offer::Choose { is_yielding: true, .. }));
    state.advance(Some(MAIN));
    assert_eq!(future.poll(&mut state), YieldPoll::Ready);
    assert!(matches!(state.schedule(), Offer::Choose { is_yielding: false, .. }));
}
