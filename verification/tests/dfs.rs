use rand_core::{RngCore, SeedableRng};
use rand_pcg::Pcg64Mcg;
use shuttle::current::TaskId;
use shuttle::scheduler::dfs::DfsScheduler;

const SEED: u64 = 0x12345678;

fn ids(ids: &[usize]) -> Vec<TaskId> {
    ids.iter().map(|id| TaskId(*id)).collect()
}

/// Runs the scheduler on a body that is given by what is runnable after some choices, and returns
/// the schedules in the order in which they were explored.
fn explore(
    scheduler: &mut DfsScheduler,
    body: &dyn Fn(&[TaskId]) -> Vec<TaskId>,
) -> Vec<Vec<TaskId>> {
    let mut explored = Vec::new();
    while let Some(schedule) = scheduler.new_execution() {
        assert_eq!(schedule.seed, SEED);
        assert!(schedule.steps.is_empty());
        let mut path: Vec<TaskId> = Vec::new();
        loop {
            let runnable = body(&path);
            if runnable.is_empty() {
                break;
            }
            assert!(scheduler.can_choose(&runnable));
            let choice = scheduler.next_task(&runnable, path.last().copied(), false).unwrap();
            assert!(runnable.contains(&choice));
            path.push(choice);
        }
        explored.push(path);
    }
    explored
}

/// Each of the tasks makes so many steps.
fn independent(steps: &[usize]) -> impl Fn(&[TaskId]) -> Vec<TaskId> + '_ {
    move |path| {
        (0..steps.len())
            .map(TaskId)
            .filter(|t| path.iter().filter(|p| *p == t).count() < steps[t.0])
            .collect()
    }
}

#[test]
fn explores_all_interleavings_depth_first() {
    let mut scheduler = DfsScheduler::new(None, false);
    let explored = explore(&mut scheduler, &independent(&[2, 1]));
    assert_eq!(explored, vec![ids(&[0, 0, 1]), ids(&[0, 1, 0]), ids(&[1, 0, 0])]);
}

#[test]
fn explores_the_binomial_number_of_interleavings() {
    let mut scheduler = DfsScheduler::new(None, false);
    let explored = explore(&mut scheduler, &independent(&[3, 3]));
    assert_eq!(explored.len(), 20);
    let mut distinct = explored.clone();
    distinct.sort();
    distinct.dedup();
    assert_eq!(distinct.len(), 20);
    // Depth first means in the order of the choices.
    assert_eq!(distinct, explored);
}

#[test]
fn explores_three_tasks() {
    let mut scheduler = DfsScheduler::new(None, false);
    let explored = explore(&mut scheduler, &independent(&[1, 1, 1]));
    assert_eq!(
        explored,
        vec![
            ids(&[0, 1, 2]),
            ids(&[0, 2, 1]),
            ids(&[1, 0, 2]),
            ids(&[1, 2, 0]),
            ids(&[2, 0, 1]),
            ids(&[2, 1, 0]),
        ]
    );
}

#[test]
fn explores_branches_of_different_depth() {
    // Task 1, when it is chosen first, ends the execution.
    let body = |path: &[TaskId]| match path {
        [] => ids(&[0, 1]),
        [TaskId(0)] => ids(&[0, 1, 2]),
        [TaskId(0), TaskId(2)] => ids(&[3, 4]),
        _ => vec![],
    };
    let mut scheduler = DfsScheduler::new(None, false);
    let explored = explore(&mut scheduler, &body);
    assert_eq!(
        explored,
        vec![ids(&[0, 0]), ids(&[0, 1]), ids(&[0, 2, 3]), ids(&[0, 2, 4]), ids(&[1])]
    );
}

#[test]
fn a_depth_bound_makes_an_endless_body_explorable() {
    let body = |path: &[TaskId]| if path.len() >= 3 { vec![] } else { ids(&[0, 1]) };
    let mut scheduler = DfsScheduler::new(None, false);
    let explored = explore(&mut scheduler, &body);
    assert_eq!(explored.len(), 8);
    assert_eq!(explored[3], ids(&[0, 1, 1]));
    assert_eq!(explored[4], ids(&[1, 0, 0]));
}

#[test]
fn runs_a_body_without_decisions_once() {
    let mut scheduler = DfsScheduler::new(None, false);
    assert_eq!(explore(&mut scheduler, &|_: &[TaskId]| vec![]), vec![ids(&[])]);
}

#[test]
fn runs_a_body_with_forced_decisions_once() {
    let mut scheduler = DfsScheduler::new(None, false);
    let explored = explore(&mut scheduler, &independent(&[3]));
    assert_eq!(explored, vec![ids(&[0, 0, 0])]);
}

#[test]
fn stops_at_the_bound_on_executions() {
    let mut scheduler = DfsScheduler::new(Some(2), false);
    let explored = explore(&mut scheduler, &independent(&[2, 1]));
    assert_eq!(explored, vec![ids(&[0, 0, 1]), ids(&[0, 1, 0])]);
    assert!(scheduler.new_execution().is_none());
}

#[test]
fn a_bound_beyond_the_schedules_does_not_matter() {
    let mut scheduler = DfsScheduler::new(Some(100), false);
    assert_eq!(explore(&mut scheduler, &independent(&[2, 1])).len(), 3);
}

#[test]
fn a_bound_of_zero_runs_nothing() {
    let mut scheduler = DfsScheduler::new(Some(0), false);
    assert!(scheduler.new_execution().is_none());
}

#[test]
fn more_choices_are_counted_from_a_level_on() {
    let mut scheduler = DfsScheduler::new(None, false);
    assert!(!scheduler.has_more_choices(0));
    scheduler.new_execution().unwrap();
    assert_eq!(scheduler.next_task(&ids(&[0, 1]), None, false), Some(TaskId(0)));
    assert_eq!(scheduler.next_task(&ids(&[1]), Some(TaskId(0)), false), Some(TaskId(1)));
    assert!(scheduler.has_more_choices(0));
    assert!(!scheduler.has_more_choices(1));
    assert!(!scheduler.has_more_choices(2));
    scheduler.new_execution().unwrap();
    assert_eq!(scheduler.next_task(&ids(&[0, 1]), None, true), Some(TaskId(1)));
    assert!(!scheduler.has_more_choices(0));
    assert!(scheduler.new_execution().is_none());
}

#[test]
fn repeats_a_choice_while_there_is_work_below() {
    let mut scheduler = DfsScheduler::new(None, false);
    scheduler.new_execution().unwrap();
    scheduler.next_task(&ids(&[4, 7]), None, false);
    scheduler.next_task(&ids(&[4, 7, 9]), None, false);
    scheduler.new_execution().unwrap();
    assert_eq!(scheduler.next_task(&ids(&[4, 7]), None, false), Some(TaskId(4)));
    assert_eq!(scheduler.next_task(&ids(&[4, 7, 9]), None, false), Some(TaskId(7)));
    scheduler.new_execution().unwrap();
    assert_eq!(scheduler.next_task(&ids(&[4, 7]), None, false), Some(TaskId(4)));
    assert_eq!(scheduler.next_task(&ids(&[4, 7, 9]), None, false), Some(TaskId(9)));
    scheduler.new_execution().unwrap();
    assert_eq!(scheduler.next_task(&ids(&[4, 7]), None, false), Some(TaskId(7)));
}

#[test]
fn a_changed_choice_is_followed_by_first_choices() {
    let mut scheduler = DfsScheduler::new(Some(3), false);
    let explored = explore(&mut scheduler, &independent(&[1, 1, 1]));
    // The choice at the top changes, and everything below starts over.
    assert_eq!(explored[1], ids(&[0, 2, 1]));
    assert_eq!(explored[2], ids(&[1, 0, 2]));
}

#[test]
fn sees_when_a_body_is_not_deterministic() {
    let mut scheduler = DfsScheduler::new(None, false);
    scheduler.new_execution().unwrap();
    assert!(!scheduler.can_choose(&[]));
    scheduler.next_task(&ids(&[0, 1]), None, false);
    scheduler.new_execution().unwrap();
    assert!(scheduler.can_choose(&ids(&[0, 1])));
    // The choice that is to be changed is not there any more, or nothing comes after it.
    assert!(!scheduler.can_choose(&ids(&[1, 2])));
    assert!(!scheduler.can_choose(&ids(&[1, 0])));
}

#[test]
fn every_execution_draws_the_values_of_the_fixed_seed() {
    let mut rng = Pcg64Mcg::seed_from_u64(SEED);
    let expected: Vec<u64> = (0..5).map(|_| rng.next_u64()).collect();
    let mut scheduler = DfsScheduler::new(None, true);
    let mut executions = 0;
    while scheduler.new_execution().is_some() {
        let mut drawn = vec![scheduler.next_u64(), scheduler.next_u64()];
        scheduler.next_task(&ids(&[0, 1]), None, false);
        drawn.push(scheduler.next_u64());
        scheduler.next_task(&ids(&[0, 1]), None, false);
        drawn.push(scheduler.next_u64());
        drawn.push(scheduler.next_u64());
        assert_eq!(drawn, expected);
        executions += 1;
    }
    assert_eq!(executions, 4);
}
