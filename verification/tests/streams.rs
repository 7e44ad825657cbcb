use std::any::Any;
use std::future::Future;
use std::marker::PhantomData;
use std::pin::Pin;
use std::sync::atomic::{AtomicBool, AtomicUsize, Ordering};
use std::sync::{Arc, Mutex};
use std::task::{Context, Poll, Wake, Waker};

use futures::stream::FuturesUnordered;
use futures::StreamExt;

use shuttle::current::TaskId;
use shuttle::future::{
    self, BlockOnAction, BlockOnEvent, Event, JoinError, Step, Wrapper, WrapperAction,
    WrapperEvent, YieldPoll,
};
use shuttle::runtime::execution::{ExecutionState, Offer};
use shuttle::scheduler::dfs::DfsScheduler;
use shuttle::scheduler::Schedule;

type Value = Box<dyn Any + Send>;
type State = ExecutionState<Value, Waker>;

/// Who chooses.
enum Policy {
    Random { seed: u64, iterations: usize },
    Dfs(DfsScheduler),
}

impl Policy {
    fn new_execution(&mut self) -> Option<Schedule> {
        match self {
            Policy::Random { iterations: 0, .. } => None,
            Policy::Random { seed, iterations } => {
                *iterations -= 1;
                Some(Schedule::new(*seed))
            }
            Policy::Dfs(dfs) => dfs.new_execution(),
        }
    }

    fn next_task(&mut self, runnable: &[TaskId], current: Option<TaskId>, is_yielding: bool) -> TaskId {
        match self {
            Policy::Random { seed, .. } => {
                *seed = seed.wrapping_mul(6364136223846793005).wrapping_add(1442695040888963407);
                runnable[(*seed >> 33) as usize % runnable.len()]
            }
            Policy::Dfs(dfs) => {
                assert!(dfs.can_choose(runnable));
                dfs.next_task(runnable, current, is_yielding).unwrap()
            }
        }
    }
}

/// One turn of a task: whether it is done.
type Body = Box<dyn FnMut() -> bool + Send>;

struct World {
    state: State,
    policy: Policy,
    bodies: Vec<Option<Body>>,
    // The tasks that are in the middle of a turn, the innermost last.
    turns: Vec<TaskId>,
    deadlocked: bool,
}

/// Runs tasks on the stack of the task that switches to them, so a task that is in the middle of a
/// turn is only chosen again when it is the innermost.
#[derive(Clone)]
struct Sim(Arc<Mutex<World>>);

struct TaskWaker {
    sim: Sim,
    id: TaskId,
}

impl Wake for TaskWaker {
    fn wake(self: Arc<Self>) {
        self.sim.0.lock().unwrap().state.wake(self.id);
    }
}

impl Sim {
    fn waker(&self, id: TaskId) -> Waker {
        Waker::from(Arc::new(TaskWaker { sim: self.clone(), id }))
    }

    /// One scheduling decision. `None` when there is nothing left to run.
    fn decide(&self) -> Option<TaskId> {
        let world = &mut *self.0.lock().unwrap();
        let (runnable, is_yielding) = match world.state.schedule() {
            Offer::Choose { runnable, is_yielding } => (runnable, is_yielding),
            Offer::Finished => return None,
            Offer::Deadlock => {
                world.deadlocked = true;
                return None;
            }
        };
        let outer = &world.turns[..world.turns.len().saturating_sub(1)];
        let allowed: Vec<TaskId> =
            runnable.into_iter().filter(|id| !outer.contains(id)).collect();
        let choice = world.policy.next_task(&allowed, world.state.try_current(), is_yielding);
        world.state.advance(Some(choice));
        Some(choice)
    }

    /// A scheduling point of the current task. `false` when the execution ends there.
    fn switch(&self) -> bool {
        let me = self.0.lock().unwrap().state.current();
        loop {
            match self.decide() {
                None => return false,
                Some(id) if id == me => return true,
                Some(id) => self.turn(id),
            }
        }
    }

    fn turn(&self, id: TaskId) {
        let mut body = {
            let mut world = self.0.lock().unwrap();
            world.turns.push(id);
            world.bodies[id.0].take().unwrap()
        };
        if body() {
            self.exit();
            drop(body);
        } else {
            let mut world = self.0.lock().unwrap();
            world.state.sleep_unless_woken();
            world.bodies[id.0] = Some(body);
        }
        self.0.lock().unwrap().turns.pop();
    }

    fn exit(&self) {
        let truncates = self.0.lock().unwrap().state.exit_truncates();
        if !truncates || self.switch() {
            self.0.lock().unwrap().state.finish();
        }
    }

    fn block_on<F: Future>(&self, fut: F) -> Option<F::Output> {
        let mut fut = Box::pin(fut);
        let mut event = BlockOnEvent::Called;
        loop {
            let action = future::block_on(&mut self.0.lock().unwrap().state, event);
            event = match action {
                BlockOnAction::Switch => {
                    if !self.switch() {
                        return None;
                    }
                    BlockOnEvent::Resumed
                }
                BlockOnAction::Poll { waker } => {
                    let waker = self.waker(waker);
                    let cx = &mut Context::from_waker(&waker);
                    BlockOnEvent::Polled(match fut.as_mut().poll(cx) {
                        Poll::Ready(value) => future::Poll::Ready(value),
                        Poll::Pending => future::Poll::Pending,
                    })
                }
                BlockOnAction::Return(value) => return Some(value),
            }
        }
    }

    fn spawn<T: Send + 'static>(
        &self,
        fut: impl Future<Output = T> + Send + 'static,
    ) -> JoinHandle<T> {
        let step = future::spawn(&mut self.0.lock().unwrap().state, Event::Called);
        assert!(matches!(step, Step::Switch));
        assert!(self.switch());
        let mut world = self.0.lock().unwrap();
        let spawned = match future::spawn(&mut world.state, Event::Resumed) {
            Step::Done(spawned) => spawned,
            Step::Switch => unreachable!(),
        };
        let sim = self.clone();
        let mut fut: Option<Pin<Box<dyn Future<Output = T> + Send>>> = Some(Box::pin(fut));
        let mut wrapper = spawned.wrapper;
        world.bodies.push(Some(Box::new(move || sim.poll_wrapper(&mut wrapper, &mut fut))));
        JoinHandle { handle: Some(spawned.handle), sim: self.clone(), output: PhantomData }
    }

    fn poll_wrapper<T: Send + 'static>(
        &self,
        wrapper: &mut Wrapper<Value>,
        fut: &mut Option<Pin<Box<dyn Future<Output = T> + Send>>>,
    ) -> bool {
        let me = self.0.lock().unwrap().state.current();
        let waker = self.waker(me);
        let cx = &mut Context::from_waker(&waker);
        let mut event = WrapperEvent::Poll;
        loop {
            let action = wrapper.poll(&mut self.0.lock().unwrap().state, event);
            event = match action {
                WrapperAction::PollFuture => {
                    WrapperEvent::FuturePolled(match fut.as_mut().unwrap().as_mut().poll(cx) {
                        Poll::Ready(value) => future::Poll::Ready(Box::new(value) as Value),
                        Poll::Pending => future::Poll::Pending,
                    })
                }
                WrapperAction::DropFuture => {
                    *fut = None;
                    WrapperEvent::FutureDropped
                }
                WrapperAction::DropLocal(_) => WrapperEvent::LocalDropped,
                WrapperAction::Pending => return false,
                WrapperAction::Ready(waker) => {
                    if let Some(waker) = waker {
                        waker.wake();
                    }
                    return true;
                }
            }
        }
    }

    async fn yield_now(&self) {
        YieldNow { sim: self.clone(), inner: future::yield_now() }.await
    }
}

struct JoinHandle<T> {
    handle: Option<future::JoinHandle<Value>>,
    sim: Sim,
    output: PhantomData<T>,
}

impl<T> Unpin for JoinHandle<T> {}

impl<T> JoinHandle<T> {
    fn abort(&self) {
        let handle = self.handle.as_ref().unwrap();
        let step = handle.abort(&mut self.sim.0.lock().unwrap().state, Event::Called);
        if let Step::Switch = step {
            assert!(self.sim.switch());
            handle.abort(&mut self.sim.0.lock().unwrap().state, Event::Resumed);
        }
    }
}

impl<T: 'static> Future for JoinHandle<T> {
    type Output = Result<T, JoinError>;

    fn poll(mut self: Pin<&mut Self>, cx: &mut Context<'_>) -> Poll<Self::Output> {
        let sim = self.sim.clone();
        let world = &mut *sim.0.lock().unwrap();
        match self.handle.as_mut().unwrap().poll(&mut world.state, cx.waker().clone()) {
            future::Poll::Ready(result) => {
                Poll::Ready(result.map(|value| *value.downcast::<T>().unwrap()))
            }
            future::Poll::Pending => Poll::Pending,
        }
    }
}

impl<T> Drop for JoinHandle<T> {
    fn drop(&mut self) {
        let handle = self.handle.take().unwrap();
        handle.drop(&mut self.sim.0.lock().unwrap().state);
    }
}

struct YieldNow {
    sim: Sim,
    inner: future::YieldNow,
}

impl Future for YieldNow {
    type Output = ();

    fn poll(mut self: Pin<&mut Self>, cx: &mut Context<'_>) -> Poll<()> {
        let sim = self.sim.clone();
        let poll = self.inner.poll(&mut sim.0.lock().unwrap().state);
        match poll {
            YieldPoll::Ready => Poll::Ready(()),
            YieldPoll::WakeThenPending => {
                cx.waker().wake_by_ref();
                Poll::Pending
            }
        }
    }
}

/// What came of running a body under a policy.
#[derive(Debug, PartialEq)]
struct Report {
    executions: usize,
    deadlocks: usize,
}

fn check(mut policy: Policy, f: impl Fn(&Sim)) -> Report {
    let mut report = Report { executions: 0, deadlocks: 0 };
    while let Some(schedule) = policy.new_execution() {
        report.executions += 1;
        let sim = Sim(Arc::new(Mutex::new(World {
            state: State::new(0xf000, schedule),
            policy,
            bodies: vec![None],
            turns: vec![],
            deadlocked: false,
        })));
        assert_eq!(sim.decide(), Some(TaskId(0)));
        sim.0.lock().unwrap().turns.push(TaskId(0));
        f(&sim);
        if !sim.0.lock().unwrap().state.is_finished() {
            sim.exit();
        }
        sim.0.lock().unwrap().turns.pop();
        while !sim.0.lock().unwrap().state.is_finished() {
            if let Some(id) = sim.decide() {
                sim.turn(id);
            }
        }
        let (rest, used, deadlocked) = {
            let world = &mut *sim.0.lock().unwrap();
            let done = Policy::Random { seed: 0, iterations: 0 };
            (
                std::mem::take(&mut world.bodies),
                std::mem::replace(&mut world.policy, done),
                world.deadlocked,
            )
        };
        drop(rest);
        policy = used;
        report.deadlocks += deadlocked as usize;
    }
    report
}

fn check_random(f: impl Fn(&Sim), iterations: usize) {
    let report = check(Policy::Random { seed: 0x5EED, iterations }, f);
    assert_eq!(report, Report { executions: iterations, deadlocks: 0 });
}

fn check_dfs(f: impl Fn(&Sim)) -> Report {
    check(Policy::Dfs(DfsScheduler::new(None, false)), f)
}

fn test_futures_unordered(sim: &Sim) {
    let done = sim.block_on(async {
        let tasks =
            (0..1).map(|_| sim.spawn(async move {})).collect::<FuturesUnordered<_>>();
        let _t = tasks.collect::<Vec<_>>().await;
    });
    assert_eq!(done, Some(()));
}

#[test]
fn streams_one_fut() {
    check_random(test_futures_unordered, 10);
}

fn test_futures_unordered_spawn_collect(sim: &Sim) {
    let done = sim.block_on(async {
        let tasks =
            (0..1).map(|_| sim.spawn(async move {})).collect::<FuturesUnordered<_>>();
        let _t = sim
            .spawn(async {
                tasks.collect::<Vec<_>>().await;
            })
            .await;
    });
    assert_eq!(done, Some(()));
}

#[test]
fn streams_one_fu_spawn_collect() {
    check_random(test_futures_unordered_spawn_collect, 10);
}

fn test_futures_unordered_next(sim: &Sim) {
    let done = sim.block_on(async {
        let mut tasks =
            (0..3).map(|_| sim.spawn(async move {})).collect::<FuturesUnordered<_>>();
        while let Some(result) = tasks.next().await {
            assert_eq!(result.unwrap(), ());
        }
    });
    assert_eq!(done, Some(()));
}

#[test]
fn streams_next() {
    check_random(test_futures_unordered_next, 10);
}

fn test_futures_unordered_next_block_on_spawn(sim: &Sim) {
    let done = sim.block_on(async {
        let inner = sim.clone();
        let _res = sim.spawn(async move {
            let mut tasks =
                (0..3).map(|_| inner.spawn(async move {})).collect::<FuturesUnordered<_>>();
            while let Some(result) = tasks.next().await {
                assert_eq!(result.unwrap(), ());
            }
        });
    });
    assert_eq!(done, Some(()));
}

#[test]
fn streams_block_on_spawn() {
    check_random(test_futures_unordered_next_block_on_spawn, 10);
}

#[test]
fn streams_next_under_every_schedule() {
    let report = check_dfs(test_futures_unordered_next);
    assert!(report.executions > 10);
    assert_eq!(report.deadlocks, 0);
}

#[test]
fn a_spawned_future_can_be_joined() {
    let report = check_dfs(|sim| {
        let handle = sim.spawn(async { 1 + 1 });
        assert_eq!(sim.block_on(handle).unwrap().unwrap(), 2);
    });
    assert_eq!(report.deadlocks, 0);
}

#[test]
fn a_detached_task_may_never_run() {
    let executions = AtomicUsize::new(0);
    let task_runs = Arc::new(AtomicUsize::new(0));
    check_dfs(|sim| {
        executions.fetch_add(1, Ordering::SeqCst);
        let r = Arc::clone(&task_runs);
        // The handle is dropped immediately, which detaches the task.
        sim.spawn(async move { r.fetch_add(1, Ordering::SeqCst) });
    });
    assert_eq!(executions.load(Ordering::SeqCst), 2);
    assert_eq!(task_runs.load(Ordering::SeqCst), 1);
}

#[test]
fn an_abort_lands_before_or_after_the_end() {
    let finished = AtomicUsize::new(0);
    let cancelled = AtomicUsize::new(0);
    let report = check_dfs(|sim| {
        let inner = sim.clone();
        let handle = sim.spawn(async move {
            inner.yield_now().await;
            42
        });
        handle.abort();
        match sim.block_on(handle).unwrap() {
            Ok(value) => {
                assert_eq!(value, 42);
                finished.fetch_add(1, Ordering::SeqCst);
            }
            Err(JoinError::Cancelled) => {
                cancelled.fetch_add(1, Ordering::SeqCst);
            }
        }
    });
    assert_eq!(report.deadlocks, 0);
    assert!(finished.load(Ordering::SeqCst) > 0);
    assert!(cancelled.load(Ordering::SeqCst) > 0);
    assert_eq!(
        finished.load(Ordering::SeqCst) + cancelled.load(Ordering::SeqCst),
        report.executions
    );
}

#[test]
fn an_aborted_future_is_dropped() {
    struct SetOnDrop(Arc<AtomicBool>);

    impl Drop for SetOnDrop {
        fn drop(&mut self) {
            self.0.store(true, Ordering::SeqCst);
        }
    }

    check_dfs(|sim| {
        let dropped = Arc::new(AtomicBool::new(false));
        let guard = SetOnDrop(Arc::clone(&dropped));
        let handle = sim.spawn(async move {
            let _guard = guard;
            std::future::pending::<()>().await;
        });
        handle.abort();
        assert!(matches!(sim.block_on(handle), Some(Err(JoinError::Cancelled))));
        assert!(dropped.load(Ordering::SeqCst));
    });
}

/// Waits for a flag without telling anybody.
struct WaitForFlag(Arc<AtomicBool>);

impl Future for WaitForFlag {
    type Output = ();

    fn poll(self: Pin<&mut Self>, _cx: &mut Context<'_>) -> Poll<()> {
        if self.0.load(Ordering::SeqCst) {
            Poll::Ready(())
        } else {
            Poll::Pending
        }
    }
}

#[test]
fn a_future_that_registers_no_waker_deadlocks() {
    let report = check_dfs(|sim| {
        let flag = Arc::new(AtomicBool::new(false));
        let setter = {
            let flag = Arc::clone(&flag);
            sim.spawn(async move { flag.store(true, Ordering::SeqCst) })
        };
        if sim.block_on(WaitForFlag(flag)).is_some() {
            sim.block_on(setter).unwrap().unwrap();
        }
    });
    // Only where the setter runs first is the flag seen.
    assert_eq!(report.deadlocks, 1);
    assert!(report.executions > 1);
}

/// Waits for a flag and leaves its waker with it.
struct WaitWithWaker(Arc<Mutex<(bool, Option<Waker>)>>);

impl Future for WaitWithWaker {
    type Output = ();

    fn poll(self: Pin<&mut Self>, cx: &mut Context<'_>) -> Poll<()> {
        let mut state = self.0.lock().unwrap();
        if state.0 {
            Poll::Ready(())
        } else {
            state.1 = Some(cx.waker().clone());
            Poll::Pending
        }
    }
}

#[test]
fn a_future_that_registers_its_waker_does_not_deadlock() {
    let report = check_dfs(|sim| {
        let flag = Arc::new(Mutex::new((false, None)));
        let setter = {
            let flag: Arc<Mutex<(bool, Option<Waker>)>> = Arc::clone(&flag);
            sim.spawn(async move {
                let waker = {
                    let mut state = flag.lock().unwrap();
                    state.0 = true;
                    state.1.take()
                };
                if let Some(waker) = waker {
                    waker.wake();
                }
            })
        };
        sim.block_on(WaitWithWaker(flag)).unwrap();
        sim.block_on(setter).unwrap().unwrap();
    });
    assert_eq!(report.deadlocks, 0);
    assert!(report.executions > 1);
}

#[test]
fn a_lost_update_is_found() {
    let totals = Mutex::new(Vec::new());
    check_dfs(|sim| {
        let counter = Arc::new(AtomicUsize::new(0));
        let handles: Vec<_> = (0..2)
            .map(|_| {
                let counter = Arc::clone(&counter);
                let inner = sim.clone();
                sim.spawn(async move {
                    let value = counter.load(Ordering::SeqCst);
                    inner.yield_now().await;
                    counter.store(value + 1, Ordering::SeqCst);
                })
            })
            .collect();
        sim.block_on(async move {
            for handle in handles {
                handle.await.unwrap();
            }
        })
        .unwrap();
        totals.lock().unwrap().push(counter.load(Ordering::SeqCst));
    });
    let totals = totals.into_inner().unwrap();
    assert!(totals.contains(&1));
    assert!(totals.contains(&2));
    assert!(totals.iter().all(|total| *total == 1 || *total == 2));
}
