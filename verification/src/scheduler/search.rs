//! What a whole depth-first search explores.
//!
//! A test body is seen here as the scheduler sees it: after each sequence of choices some tasks
//! are runnable, or the execution is over. The laws relate the executions that the transitions of
//! [`DfsView`] make, one after the other, to the set of all schedules of the body.

use vstd::prelude::*;

use crate::runtime::task_id::TaskId;
use crate::scheduler::data::pcg_seeded_draw;
use crate::scheduler::dfs::{first_position, more_choices, random_stream, DfsView};

verus! {

/// A test body: the tasks that are runnable after a sequence of choices, and none when the
/// execution is over.
pub struct Program {
    pub runnable: spec_fn(Seq<TaskId>) -> Seq<TaskId>,
}

/// `schedule` begins with the choices `path`.
pub open spec fn extends(schedule: Seq<TaskId>, path: Seq<TaskId>) -> bool {
    path.len() <= schedule.len() && schedule.take(path.len() as int) == path
}

impl Program {
    /// Each choice of `path` is one of a task that is runnable there.
    pub open spec fn is_path(self, path: Seq<TaskId>) -> bool {
        forall|i: int|
            0 <= i < path.len() ==> (self.runnable)(path.take(i)).contains(#[trigger] path[i])
    }

    /// The choices of one whole execution.
    pub open spec fn is_schedule(self, path: Seq<TaskId>) -> bool {
        self.is_path(path) && (self.runnable)(path).len() == 0
    }

    /// No execution makes more than `depth` choices, and no task is offered twice at one point.
    pub open spec fn bounded(self, depth: nat) -> bool {
        forall|path: Seq<TaskId>| #[trigger]
            self.is_path(path) ==> path.len() <= depth && (self.runnable)(path).no_duplicates()
    }

    /// The body, with every execution cut off after `depth` choices.
    pub open spec fn truncated(self, depth: nat) -> Program {
        Program {
            runnable: |path: Seq<TaskId>|
                if path.len() >= depth {
                    Seq::empty()
                } else {
                    (self.runnable)(path)
                },
        }
    }

    /// All schedules that begin with `path`, depth first, where `fuel` choices are left.
    pub open spec fn schedules_below(self, path: Seq<TaskId>, fuel: nat) -> Seq<Seq<TaskId>>
        decreases fuel, (self.runnable)(path).len() + 1,
    {
        if (self.runnable)(path).len() == 0 {
            seq![path]
        } else {
            self.branches(path, (self.runnable)(path).len(), fuel)
        }
    }

    /// The schedules that begin with `path` and go on with one of its first `n` options.
    pub open spec fn branches(self, path: Seq<TaskId>, n: nat, fuel: nat) -> Seq<Seq<TaskId>>
        decreases fuel, n,
    {
        if n == 0 || fuel == 0 {
            Seq::empty()
        } else {
            self.branches(path, (n - 1) as nat, fuel) + self.schedules_below(
                path.push((self.runnable)(path)[n - 1]),
                (fuel - 1) as nat,
            )
        }
    }

    /// All schedules, depth first.
    pub open spec fn schedules(self, depth: nat) -> Seq<Seq<TaskId>> {
        self.schedules_below(Seq::empty(), depth)
    }

    /// The rest of an execution that has made the choices `path`: the search at its end, and all
    /// the choices made.
    pub open spec fn run(self, dfs: DfsView, path: Seq<TaskId>, fuel: nat) -> (
        DfsView,
        Seq<TaskId>,
    )
        decreases fuel,
    {
        let runnable = (self.runnable)(path);
        if runnable.len() == 0 || fuel == 0 {
            (dfs, path)
        } else {
            self.run(dfs.after_choice(runnable), path.push(dfs.choice(runnable)), (fuel - 1) as nat)
        }
    }

    /// In the rest of that execution the search can always choose, and chooses a runnable task.
    pub open spec fn runs_through(self, dfs: DfsView, path: Seq<TaskId>, fuel: nat) -> bool
        decreases fuel,
    {
        let runnable = (self.runnable)(path);
        runnable.len() == 0 || {
            &&& fuel > 0
            &&& dfs.can_choose(runnable)
            &&& runnable.contains(dfs.choice(runnable))
            &&& self.runs_through(
                dfs.after_choice(runnable),
                path.push(dfs.choice(runnable)),
                (fuel - 1) as nat,
            )
        }
    }

    /// The search after `n` whole executions.
    pub open spec fn searched(self, fresh: DfsView, depth: nat, n: nat) -> DfsView
        decreases n,
    {
        if n == 0 {
            fresh
        } else {
            self.run(
                self.searched(fresh, depth, (n - 1) as nat).started(),
                Seq::empty(),
                depth,
            ).0
        }
    }

    /// The levels that a search remembers of an execution that made the choices `path`.
    pub open spec fn levels_of(self, path: Seq<TaskId>) -> Seq<(TaskId, bool)> {
        Seq::new(
            path.len(),
            |j: int| (path[j], path[j] == (self.runnable)(path.take(j)).last()),
        )
    }
}

proof fn lemma_path_push(program: Program, path: Seq<TaskId>, task: TaskId)
    requires
        program.is_path(path),
        (program.runnable)(path).contains(task),
    ensures
        program.is_path(path.push(task)),
{
    let longer = path.push(task);
    assert forall|i: int| 0 <= i < longer.len() implies (program.runnable)(longer.take(i)).contains(
        #[trigger] longer[i],
    ) by {
        assert(longer.take(i) =~= path.take(i));
        if i < path.len() {
            assert(longer[i] == path[i]);
        } else {
            assert(longer.take(i) =~= path);
        }
    }
}

proof fn lemma_path_take(program: Program, path: Seq<TaskId>, n: int)
    requires
        program.is_path(path),
        0 <= n <= path.len(),
    ensures
        program.is_path(path.take(n)),
{
    assert forall|i: int| 0 <= i < path.take(n).len() implies (program.runnable)(
        path.take(n).take(i),
    ).contains(#[trigger] path.take(n)[i]) by {
        assert(path.take(n).take(i) =~= path.take(i));
        assert(path.take(n)[i] == path[i]);
    }
}

/// The schedules of the option `i` stand in `branches` behind those of the options before it.
proof fn lemma_branch_at(program: Program, path: Seq<TaskId>, i: nat, n: nat, fuel: nat, k: int)
    requires
        i < n,
        fuel > 0,
        0 <= k < program.schedules_below(
            path.push((program.runnable)(path)[i as int]),
            (fuel - 1) as nat,
        ).len(),
    ensures
        program.branches(path, i, fuel).len() + k < program.branches(path, n, fuel).len(),
        program.branches(path, n, fuel)[program.branches(path, i, fuel).len() + k]
            == program.schedules_below(
            path.push((program.runnable)(path)[i as int]),
            (fuel - 1) as nat,
        )[k],
    decreases n,
{
    if i < n - 1 {
        lemma_branch_at(program, path, i, (n - 1) as nat, fuel, k);
    }
}

/// From a fresh level on, an execution takes the first option everywhere.
proof fn lemma_first_run(program: Program, dfs: DfsView, path: Seq<TaskId>, fuel: nat)
    requires
        program.bounded(path.len() + fuel),
        program.is_path(path),
        dfs.steps == path.len(),
        dfs.levels == program.levels_of(path),
    ensures
        program.runs_through(dfs, path, fuel),
        program.schedules_below(path, fuel).len() > 0,
        ({
            let first = program.schedules_below(path, fuel)[0];
            &&& program.is_schedule(first)
            &&& extends(first, path)
            &&& program.run(dfs, path, fuel) == (
                DfsView { levels: program.levels_of(first), steps: first.len(), ..dfs },
                first,
            )
        }),
    decreases fuel,
{
    let runnable = (program.runnable)(path);
    if runnable.len() == 0 {
        assert(path.take(path.len() as int) =~= path);
        assert(program.schedules_below(path, fuel)[0] == path);
    } else {
        let task = runnable[0];
        assert(runnable.contains(task));
        lemma_path_push(program, path, task);
        assert(fuel > 0) by {
            assert(program.is_path(path.push(task)));
        }
        let next = dfs.after_choice(runnable);
        assert(dfs.choice(runnable) == task);
        assert(next.levels =~= program.levels_of(path.push(task))) by {
            assert(path.push(task).take(path.len() as int) =~= path);
            assert(runnable.no_duplicates());
            assert(runnable[0] == runnable.last() <==> runnable.len() == 1);
            assert forall|j: int| 0 <= j < path.len() implies path.push(task).take(j) =~= path.take(
                j,
            ) by {}
        }
        lemma_first_run(program, next, path.push(task), (fuel - 1) as nat);
        let below = program.schedules_below(path.push(task), (fuel - 1) as nat);
        reveal_with_fuel(Program::branches, 2);
        assert(program.branches(path, 0, fuel).len() == 0);
        lemma_branch_at(program, path, 0, runnable.len(), fuel, 0);
        let first = program.schedules_below(path, fuel)[0];
        assert(first == below[0]);
        assert(first.take(path.len() as int) =~= path) by {
            assert(first.take(path.len() as int) =~= first.take((path.len() + 1) as int).take(
                path.len() as int,
            ));
            assert(path.push(task).take(path.len() as int) =~= path);
        }
    }
}

/// Which option the schedule number `k` of `branches` goes on with, and its number there.
proof fn lemma_find_branch(program: Program, path: Seq<TaskId>, n: nat, fuel: nat, k: int) -> (found:
    (nat, int))
    requires
        fuel > 0,
        0 <= k < program.branches(path, n, fuel).len(),
    ensures
        found.0 < n,
        k == program.branches(path, found.0, fuel).len() + found.1,
        0 <= found.1 < program.schedules_below(
            path.push((program.runnable)(path)[found.0 as int]),
            (fuel - 1) as nat,
        ).len(),
        program.branches(path, n, fuel)[k] == program.schedules_below(
            path.push((program.runnable)(path)[found.0 as int]),
            (fuel - 1) as nat,
        )[found.1],
    decreases n,
{
    let before = program.branches(path, (n - 1) as nat, fuel);
    if k < before.len() {
        lemma_find_branch(program, path, (n - 1) as nat, fuel, k)
    } else {
        ((n - 1) as nat, k - before.len())
    }
}

/// A schedule that begins with a longer path begins with the shorter one too.
proof fn lemma_extends_push(schedule: Seq<TaskId>, path: Seq<TaskId>, task: TaskId)
    requires
        extends(schedule, path.push(task)),
    ensures
        extends(schedule, path),
        schedule.len() > path.len(),
        schedule[path.len() as int] == task,
{
    let longer = path.push(task);
    assert(schedule.take(path.len() as int) =~= longer.take(path.len() as int));
    assert(longer.take(path.len() as int) =~= path);
    assert(schedule.take(longer.len() as int)[path.len() as int] == task);
}

/// Everything in `schedules_below` is a schedule that begins with the path.
proof fn lemma_below_sound(program: Program, path: Seq<TaskId>, fuel: nat, k: int)
    requires
        program.is_path(path),
        0 <= k < program.schedules_below(path, fuel).len(),
    ensures
        program.is_schedule(program.schedules_below(path, fuel)[k]),
        extends(program.schedules_below(path, fuel)[k], path),
    decreases fuel,
{
    let runnable = (program.runnable)(path);
    if runnable.len() == 0 {
        assert(path.take(path.len() as int) =~= path);
    } else {
        let (i, at) = lemma_find_branch(program, path, runnable.len(), fuel, k);
        let task = runnable[i as int];
        lemma_path_push(program, path, task);
        lemma_below_sound(program, path.push(task), (fuel - 1) as nat, at);
        lemma_extends_push(program.schedules_below(path, fuel)[k], path, task);
    }
}

/// Every schedule that begins with the path is in `schedules_below`.
proof fn lemma_below_complete(
    program: Program,
    path: Seq<TaskId>,
    fuel: nat,
    schedule: Seq<TaskId>,
) -> (k: int)
    requires
        program.bounded(path.len() + fuel),
        program.is_schedule(schedule),
        extends(schedule, path),
    ensures
        0 <= k < program.schedules_below(path, fuel).len(),
        program.schedules_below(path, fuel)[k] == schedule,
    decreases fuel,
{
    let runnable = (program.runnable)(path);
    let s = path.len();
    if schedule.len() == s {
        assert(schedule =~= path);
        0
    } else {
        let task = schedule[s as int];
        assert((program.runnable)(schedule.take(s as int)).contains(task));
        let i = choose|i: int| 0 <= i < runnable.len() && runnable[i] == task;
        assert(schedule.take((s + 1) as int) =~= path.push(task));
        assert(fuel > 0) by {
            assert(program.is_path(schedule));
        }
        let at = lemma_below_complete(program, path.push(task), (fuel - 1) as nat, schedule);
        lemma_branch_at(program, path, i as nat, runnable.len(), fuel, at);
        program.branches(path, i as nat, fuel).len() + at
    }
}

/// Nothing is in `schedules_below` twice.
proof fn lemma_below_distinct(program: Program, path: Seq<TaskId>, fuel: nat, a: int, b: int)
    requires
        program.bounded(path.len() + fuel),
        program.is_path(path),
        0 <= a < b < program.schedules_below(path, fuel).len(),
    ensures
        program.schedules_below(path, fuel)[a] != program.schedules_below(path, fuel)[b],
    decreases fuel,
{
    let runnable = (program.runnable)(path);
    if runnable.len() > 0 {
        let (i, at) = lemma_find_branch(program, path, runnable.len(), fuel, a);
        let (j, bt) = lemma_find_branch(program, path, runnable.len(), fuel, b);
        let left = runnable[i as int];
        let right = runnable[j as int];
        lemma_path_push(program, path, left);
        lemma_path_push(program, path, right);
        if i == j {
            lemma_below_distinct(program, path.push(left), (fuel - 1) as nat, at, bt);
        } else {
            lemma_below_sound(program, path.push(left), (fuel - 1) as nat, at);
            lemma_below_sound(program, path.push(right), (fuel - 1) as nat, bt);
            lemma_extends_push(program.schedules_below(path, fuel)[a], path, left);
            lemma_extends_push(program.schedules_below(path, fuel)[b], path, right);
        }
    }
}

/// An execution that follows the levels of the schedule number `k` makes the schedule after it.
proof fn lemma_next_run(
    program: Program,
    dfs: DfsView,
    schedule: Seq<TaskId>,
    path: Seq<TaskId>,
    fuel: nat,
    k: int,
)
    requires
        program.bounded(path.len() + fuel),
        program.is_path(path),
        0 <= k < program.schedules_below(path, fuel).len(),
        program.schedules_below(path, fuel)[k] == schedule,
        dfs.steps == path.len(),
        dfs.levels == program.levels_of(schedule),
    ensures
        more_choices(dfs.levels, path.len() as int) <==> k + 1 < program.schedules_below(
            path,
            fuel,
        ).len(),
        k + 1 < program.schedules_below(path, fuel).len() ==> {
            let next = program.schedules_below(path, fuel)[k + 1];
            &&& program.runs_through(dfs, path, fuel)
            &&& program.run(dfs, path, fuel) == (
                DfsView { levels: program.levels_of(next), steps: next.len(), ..dfs },
                next,
            )
        },
    decreases fuel,
{
    let runnable = (program.runnable)(path);
    let s = path.len() as int;
    lemma_below_sound(program, path, fuel, k);
    if runnable.len() == 0 {
        assert(schedule == path);
    } else {
        let (i, at) = lemma_find_branch(program, path, runnable.len(), fuel, k);
        let task = runnable[i as int];
        let below = program.schedules_below(path.push(task), (fuel - 1) as nat);
        lemma_path_push(program, path, task);
        lemma_below_sound(program, path.push(task), (fuel - 1) as nat, at);
        lemma_extends_push(schedule, path, task);
        assert(schedule.take(s) == path);
        assert(dfs.levels[s] == (task, task == runnable.last()));
        let kept = DfsView { steps: dfs.steps + 1, ..dfs };
        lemma_next_run(program, kept, schedule, path.push(task), (fuel - 1) as nat, at);
        if at + 1 < below.len() {
            assert(dfs.repeats());
            assert(dfs.after_choice(runnable) == kept);
            assert(dfs.choice(runnable) == task);
            lemma_branch_at(program, path, i, runnable.len(), fuel, at + 1);
            let j = choose|j: int| s + 1 <= j < dfs.levels.len() && !(#[trigger] dfs.levels[j]).1;
            assert(!dfs.levels[j].1);
        } else {
            assert(!dfs.repeats());
            assert(program.branches(path, i + 1, fuel).len() == k + 1);
            assert(runnable.no_duplicates());
            lemma_first_position(runnable, i as int, 0);
            if i + 1 < runnable.len() {
                assert(task != runnable.last());
                assert(!dfs.levels[s].1);
                let option = runnable[i as int + 1];
                assert(dfs.choice(runnable) == option);
                lemma_path_push(program, path, option);
                let turned = dfs.after_choice(runnable);
                assert(turned.levels =~= program.levels_of(path.push(option))) by {
                    assert(path.push(option).take(s) =~= path);
                    assert forall|j: int| 0 <= j < s implies path.push(option).take(j)
                        =~= schedule.take(j) && path.push(option)[j] == schedule[j] by {
                        assert(schedule.take(s)[j] == schedule[j]);
                        assert(schedule.take(s).take(j) =~= schedule.take(j));
                        assert(path.push(option).take(j) =~= path.take(j));
                    }
                }
                lemma_first_run(program, turned, path.push(option), (fuel - 1) as nat);
                lemma_branch_at(program, path, i + 1, runnable.len(), fuel, 0);
            } else {
                assert(dfs.levels[s].1);
                assert(program.schedules_below(path, fuel).len() == k + 1);
            }
        }
    }
}

/// In a list without repetition the first position of an entry is its own.
proof fn lemma_first_position(runnable: Seq<TaskId>, at: int, from: int)
    requires
        runnable.no_duplicates(),
        0 <= from <= at < runnable.len(),
    ensures
        first_position(runnable, runnable[at], from) == at,
    decreases at - from,
{
    if from < at {
        lemma_first_position(runnable, at, from + 1);
    }
}

/// The search after `k` executions remembers the last of them.
proof fn lemma_searched(
    program: Program,
    max_iterations: Option<usize>,
    allow_random_data: bool,
    depth: nat,
    k: nat,
)
    requires
        program.bounded(depth),
        k <= program.schedules(depth).len(),
    ensures
        ({
            let fresh = DfsView::fresh(max_iterations, allow_random_data);
            let dfs = program.searched(fresh, depth, k);
            let all = program.schedules(depth);
            &&& dfs.max_iterations == max_iterations
            &&& dfs.iterations == k
            &&& dfs.exhausted() <==> k == all.len()
            &&& k < all.len() ==> {
                let next = all[k as int];
                &&& program.runs_through(dfs.started(), Seq::empty(), depth)
                &&& program.run(dfs.started(), Seq::empty(), depth) == (
                    DfsView {
                        levels: program.levels_of(next),
                        steps: next.len(),
                        ..dfs.started()
                    },
                    next,
                )
            }
        }),
        program.schedules(depth).len() > 0,
    decreases k,
{
    let fresh = DfsView::fresh(max_iterations, allow_random_data);
    let dfs = program.searched(fresh, depth, k);
    let start = Seq::<TaskId>::empty();
    assert(program.levels_of(start) =~= Seq::empty());
    if k == 0 {
        lemma_first_run(program, dfs.started(), start, depth);
    } else {
        lemma_searched(program, max_iterations, allow_random_data, depth, (k - 1) as nat);
        lemma_next_run(
            program,
            dfs.started(),
            program.schedules(depth)[k - 1],
            start,
            depth,
            k - 1,
        );
    }
}

/// `schedules` lists every schedule of the body, and each one once.
pub proof fn law_schedules_are_listed_once(program: Program, depth: nat)
    requires
        program.bounded(depth),
    ensures
        forall|p: Seq<TaskId>|
            program.is_schedule(p) <==> #[trigger] program.schedules(depth).contains(p),
        program.schedules(depth).no_duplicates(),
        program.schedules(depth).len() > 0,
{
    let start = Seq::<TaskId>::empty();
    let all = program.schedules(depth);
    lemma_searched(program, None, false, depth, 0);
    assert forall|p: Seq<TaskId>| program.is_schedule(p) <==> #[trigger] all.contains(p) by {
        if program.is_schedule(p) {
            assert(p.take(0) =~= start);
            let k = lemma_below_complete(program, start, depth, p);
            assert(all[k] == p);
        }
        if all.contains(p) {
            let k = choose|k: int| 0 <= k < all.len() && all[k] == p;
            lemma_below_sound(program, start, depth, k);
        }
    }
    assert forall|a: int, b: int| 0 <= a < all.len() && 0 <= b < all.len() && a != b implies all[a]
        != all[b] by {
        if a < b {
            lemma_below_distinct(program, start, depth, a, b);
        } else {
            lemma_below_distinct(program, start, depth, b, a);
        }
    }
}

/// The schedule `a` comes before the schedule `b` depth first: where they part, `a` goes on with a
/// task that is offered there before the one that `b` goes on with.
pub open spec fn precedes(program: Program, a: Seq<TaskId>, b: Seq<TaskId>) -> bool {
    exists|d: int| #[trigger] parts_at(program, a, b, d)
}

/// The schedules agree before their choice number `d`, and there `a` takes the earlier option.
pub open spec fn parts_at(program: Program, a: Seq<TaskId>, b: Seq<TaskId>, d: int) -> bool {
    let offered = (program.runnable)(a.take(d));
    &&& 0 <= d < a.len()
    &&& d < b.len()
    &&& a.take(d) == b.take(d)
    &&& first_position(offered, a[d], 0) < first_position(offered, b[d], 0) < offered.len()
}

/// The first options of a path have no more schedules than more of its options.
proof fn lemma_branches_grow(program: Program, path: Seq<TaskId>, m: nat, n: nat, fuel: nat)
    requires
        m <= n,
    ensures
        program.branches(path, m, fuel).len() <= program.branches(path, n, fuel).len(),
    decreases n,
{
    if m < n {
        lemma_branches_grow(program, path, m, (n - 1) as nat, fuel);
    }
}

proof fn lemma_below_ordered(program: Program, path: Seq<TaskId>, fuel: nat, a: int, b: int)
    requires
        program.bounded(path.len() + fuel),
        program.is_path(path),
        0 <= a < b < program.schedules_below(path, fuel).len(),
    ensures
        precedes(
            program,
            program.schedules_below(path, fuel)[a],
            program.schedules_below(path, fuel)[b],
        ),
    decreases fuel,
{
    let runnable = (program.runnable)(path);
    if runnable.len() > 0 {
        let first = program.schedules_below(path, fuel)[a];
        let second = program.schedules_below(path, fuel)[b];
        let (i, at) = lemma_find_branch(program, path, runnable.len(), fuel, a);
        let (j, bt) = lemma_find_branch(program, path, runnable.len(), fuel, b);
        let left = runnable[i as int];
        let right = runnable[j as int];
        lemma_path_push(program, path, left);
        lemma_path_push(program, path, right);
        if i == j {
            lemma_below_ordered(program, path.push(left), (fuel - 1) as nat, at, bt);
        } else {
            if j < i {
                lemma_branches_grow(program, path, j + 1, i, fuel);
                assert(program.branches(path, j + 1, fuel).len() > b);
            }
            lemma_below_sound(program, path.push(left), (fuel - 1) as nat, at);
            lemma_below_sound(program, path.push(right), (fuel - 1) as nat, bt);
            lemma_extends_push(first, path, left);
            lemma_extends_push(second, path, right);
            lemma_first_position(runnable, i as int, 0);
            lemma_first_position(runnable, j as int, 0);
            assert(parts_at(program, first, second, path.len() as int));
        }
    }
}

/// The schedules are listed in lexicographic order, by the positions of their choices among the
/// tasks that are offered.
pub proof fn law_schedules_are_in_lexicographic_order(program: Program, depth: nat, a: int, b: int)
    requires
        program.bounded(depth),
        0 <= a < b < program.schedules(depth).len(),
    ensures
        precedes(program, program.schedules(depth)[a], program.schedules(depth)[b]),
{
    lemma_below_ordered(program, Seq::empty(), depth, a, b);
}

/// The execution number `k` of a search makes the schedule number `k`, depth first. At each of its
/// decision points the search can choose, and what it chooses is runnable there. After it the
/// search remembers the choices of that schedule, each with whether options are left there.
pub proof fn law_executions_follow_depth_first_order(
    program: Program,
    max_iterations: Option<usize>,
    allow_random_data: bool,
    depth: nat,
    k: nat,
)
    requires
        program.bounded(depth),
        k < program.schedules(depth).len(),
    ensures
        ({
            let fresh = DfsView::fresh(max_iterations, allow_random_data);
            let dfs = program.searched(fresh, depth, k).started();
            &&& program.runs_through(dfs, Seq::empty(), depth)
            &&& program.run(dfs, Seq::empty(), depth).1 == program.schedules(depth)[k as int]
            &&& program.searched(fresh, depth, k + 1).levels == program.levels_of(
                program.schedules(depth)[k as int],
            )
        }),
{
    lemma_searched(program, max_iterations, allow_random_data, depth, k);
}

/// After `k` executions another one is started if and only if some schedule has not been explored
/// and the bound on executions, where there is one, has not been reached.
pub proof fn law_search_stops_when_all_is_explored(
    program: Program,
    max_iterations: Option<usize>,
    allow_random_data: bool,
    depth: nat,
    k: nat,
)
    requires
        program.bounded(depth),
        k <= program.schedules(depth).len(),
    ensures
        program.searched(
            DfsView::fresh(max_iterations, allow_random_data),
            depth,
            k,
        ).can_start() <==> {
            &&& k < program.schedules(depth).len()
            &&& max_iterations matches Some(limit) ==> k < limit
        },
{
    lemma_searched(program, max_iterations, allow_random_data, depth, k);
}

/// An unbounded search explores every schedule, each in one execution.
pub proof fn law_search_is_exhaustive(
    program: Program,
    allow_random_data: bool,
    depth: nat,
    schedule: Seq<TaskId>,
) -> (k: nat)
    requires
        program.bounded(depth),
        program.is_schedule(schedule),
    ensures
        ({
            let fresh = DfsView::fresh(None, allow_random_data);
            let explored = |n: nat|
                program.run(
                    program.searched(fresh, depth, n).started(),
                    Seq::empty(),
                    depth,
                ).1;
            &&& k < program.schedules(depth).len()
            &&& program.searched(fresh, depth, k).can_start()
            &&& explored(k) == schedule
            &&& forall|n: nat|
                n < program.schedules(depth).len() && n != k ==> #[trigger] explored(n) != schedule
        }),
{
    law_schedules_are_listed_once(program, depth);
    let all = program.schedules(depth);
    assert(all.contains(schedule));
    let at = choose|i: int| 0 <= i < all.len() && all[i] == schedule;
    let k = at as nat;
    let fresh = DfsView::fresh(None, allow_random_data);
    let explored = |n: nat|
        program.run(program.searched(fresh, depth, n).started(), Seq::empty(), depth).1;
    lemma_searched(program, None, allow_random_data, depth, k);
    assert forall|n: nat| n < all.len() && n != k implies #[trigger] explored(n) != schedule by {
        lemma_searched(program, None, allow_random_data, depth, n);
        assert(all[n as int] != all[k as int]);
    }
    k
}

/// A bound on the steps of an execution puts a depth bound on the search: with executions cut off
/// after `depth` choices any body can be explored.
pub proof fn law_truncated_bodies_are_bounded(program: Program, depth: nat)
    requires
        forall|path: Seq<TaskId>|
            program.is_path(path) ==> #[trigger] (program.runnable)(path).no_duplicates(),
    ensures
        program.truncated(depth).bounded(depth),
{
    let cut = program.truncated(depth);
    assert forall|path: Seq<TaskId>| #[trigger] cut.is_path(path) implies path.len() <= depth && (
    cut.runnable)(path).no_duplicates() by {
        if path.len() > depth {
            assert((cut.runnable)(path.take(depth as int)).contains(path[depth as int]));
        }
        if path.len() < depth {
            assert forall|i: int| 0 <= i < path.len() implies (program.runnable)(
                path.take(i),
            ).contains(#[trigger] path[i]) by {
                assert((cut.runnable)(path.take(i)).contains(path[i]));
            }
            assert(program.is_path(path));
        }
    }
}

/// The choices made so far stay at the front of the schedule that an execution ends with.
proof fn lemma_run_extends(program: Program, dfs: DfsView, path: Seq<TaskId>, fuel: nat)
    ensures
        extends(program.run(dfs, path, fuel).1, path),
    decreases fuel,
{
    let runnable = (program.runnable)(path);
    if runnable.len() == 0 || fuel == 0 {
        assert(path.take(path.len() as int) =~= path);
    } else {
        let task = dfs.choice(runnable);
        lemma_run_extends(
            program,
            dfs.after_choice(runnable),
            path.push(task),
            (fuel - 1) as nat,
        );
        lemma_extends_push(program.run(dfs, path, fuel).1, path, task);
    }
}

/// The execution after one that made the choices `schedule` changes the choice at the deepest
/// point that has options left, to the next runnable task there. It keeps all choices above, and
/// makes the first choice that there is everywhere below.
pub proof fn law_search_changes_the_deepest_choice(
    program: Program,
    dfs: DfsView,
    schedule: Seq<TaskId>,
    depth: nat,
    deepest: nat,
)
    requires
        program.bounded(depth),
        program.is_schedule(schedule),
        dfs.steps == 0,
        dfs.levels == program.levels_of(schedule),
        deepest < schedule.len(),
        schedule[deepest as int] != (program.runnable)(schedule.take(deepest as int)).last(),
        forall|j: int|
            deepest < j < schedule.len() ==> #[trigger] schedule[j] == (program.runnable)(
                schedule.take(j),
            ).last(),
    ensures
        ({
            let next = program.run(dfs, Seq::empty(), depth).1;
            let offered = (program.runnable)(schedule.take(deepest as int));
            let old_choice = first_position(offered, schedule[deepest as int], 0);
            &&& next.len() > deepest
            &&& next.take(deepest as int) == schedule.take(deepest as int)
            &&& old_choice + 1 < offered.len()
            &&& next[deepest as int] == offered[old_choice + 1]
            &&& forall|j: int|
                deepest < j < next.len() ==> #[trigger] next[j] == (program.runnable)(
                    next.take(j),
                )[0]
        }),
{
    lemma_deepest_from(program, dfs, schedule, depth, deepest, 0);
    assert(schedule.take(0) =~= Seq::empty());
}

/// Of two executions of a search that follow one another, the second one changes the choice of the
/// first at the deepest point that has options left, to the next runnable task there. It keeps all
/// choices above, and makes the first choice that there is everywhere below.
pub proof fn law_executions_part_at_the_deepest_choice(
    program: Program,
    depth: nat,
    k: nat,
    deepest: nat,
)
    requires
        program.bounded(depth),
        k + 1 < program.schedules(depth).len(),
        ({
            let schedule = program.schedules(depth)[k as int];
            &&& deepest < schedule.len()
            &&& schedule[deepest as int] != (program.runnable)(
                schedule.take(deepest as int),
            ).last()
            &&& forall|j: int|
                deepest < j < schedule.len() ==> #[trigger] schedule[j] == (program.runnable)(
                    schedule.take(j),
                ).last()
        }),
    ensures
        ({
            let schedule = program.schedules(depth)[k as int];
            let next = program.schedules(depth)[k as int + 1];
            let offered = (program.runnable)(schedule.take(deepest as int));
            let old_choice = first_position(offered, schedule[deepest as int], 0);
            &&& next.len() > deepest
            &&& next.take(deepest as int) == schedule.take(deepest as int)
            &&& old_choice + 1 < offered.len()
            &&& next[deepest as int] == offered[old_choice + 1]
            &&& forall|j: int|
                deepest < j < next.len() ==> #[trigger] next[j] == (program.runnable)(
                    next.take(j),
                )[0]
        }),
{
    let fresh = DfsView::fresh(None, false);
    let schedule = program.schedules(depth)[k as int];
    law_schedules_are_listed_once(program, depth);
    assert(program.schedules(depth).contains(schedule));
    law_executions_follow_depth_first_order(program, None, false, depth, k);
    law_executions_follow_depth_first_order(program, None, false, depth, k + 1);
    law_search_changes_the_deepest_choice(
        program,
        program.searched(fresh, depth, k + 1).started(),
        schedule,
        depth,
        deepest,
    );
}

proof fn lemma_deepest_from(
    program: Program,
    dfs: DfsView,
    schedule: Seq<TaskId>,
    fuel: nat,
    deepest: nat,
    s: nat,
)
    requires
        program.bounded(s + fuel),
        program.is_schedule(schedule),
        dfs.steps == s,
        dfs.levels == program.levels_of(schedule),
        s <= deepest < schedule.len(),
        schedule[deepest as int] != (program.runnable)(schedule.take(deepest as int)).last(),
        forall|j: int|
            deepest < j < schedule.len() ==> #[trigger] schedule[j] == (program.runnable)(
                schedule.take(j),
            ).last(),
    ensures
        ({
            let next = program.run(dfs, schedule.take(s as int), fuel).1;
            let offered = (program.runnable)(schedule.take(deepest as int));
            let old_choice = first_position(offered, schedule[deepest as int], 0);
            &&& next.len() > deepest
            &&& next.take(deepest as int) == schedule.take(deepest as int)
            &&& old_choice + 1 < offered.len()
            &&& next[deepest as int] == offered[old_choice + 1]
            &&& forall|j: int|
                deepest < j < next.len() ==> #[trigger] next[j] == (program.runnable)(
                    next.take(j),
                )[0]
        }),
    decreases deepest - s,
{
    let path = schedule.take(s as int);
    let runnable = (program.runnable)(path);
    assert(runnable.contains(schedule[s as int]));
    assert(fuel > 0) by {
        assert(program.is_path(schedule));
    }
    assert(!dfs.levels[deepest as int].1);
    if s < deepest {
        assert(dfs.repeats());
        assert(path.push(schedule[s as int]) =~= schedule.take((s + 1) as int));
        lemma_deepest_from(
            program,
            dfs.after_choice(runnable),
            schedule,
            (fuel - 1) as nat,
            deepest,
            s + 1,
        );
    } else {
        assert(!dfs.repeats());
        lemma_path_take(program, schedule, s as int);
        let at = choose|i: int| 0 <= i < runnable.len() && runnable[i] == schedule[s as int];
        lemma_first_position(runnable, at, 0);
        let task = dfs.choice(runnable);
        lemma_run_extends(program, dfs.after_choice(runnable), path.push(task), (fuel - 1) as nat);
        lemma_extends_push(program.run(dfs, path, fuel).1, path, task);
        lemma_new_levels_take_the_first(
            program,
            dfs.after_choice(runnable),
            path.push(task),
            (fuel - 1) as nat,
        );
    }
}

/// Below the levels that the search remembers, it makes the first choice that there is.
proof fn lemma_new_levels_take_the_first(
    program: Program,
    dfs: DfsView,
    path: Seq<TaskId>,
    fuel: nat,
)
    requires
        dfs.steps == path.len(),
        dfs.levels.len() == path.len(),
    ensures
        ({
            let made = program.run(dfs, path, fuel).1;
            forall|j: int|
                path.len() <= j < made.len() ==> #[trigger] made[j] == (program.runnable)(
                    made.take(j),
                )[0]
        }),
    decreases fuel,
{
    let runnable = (program.runnable)(path);
    if runnable.len() > 0 && fuel > 0 {
        let made = program.run(dfs, path, fuel).1;
        let next = dfs.after_choice(runnable);
        let task = dfs.choice(runnable);
        lemma_new_levels_take_the_first(program, next, path.push(task), (fuel - 1) as nat);
        lemma_run_extends(program, next, path.push(task), (fuel - 1) as nat);
        lemma_extends_push(made, path, task);
    }
}

/// `at` is where `task` stands first in `runnable`.
pub open spec fn is_first_at(runnable: Seq<TaskId>, task: TaskId, at: int) -> bool {
    &&& 0 <= at < runnable.len()
    &&& runnable[at] == task
    &&& forall|before: int| 0 <= before < at ==> #[trigger] runnable[before] != task
}

proof fn lemma_where_it_stands_first(runnable: Seq<TaskId>, task: TaskId, from: int)
    requires
        0 <= from <= runnable.len(),
    ensures
        from <= first_position(runnable, task, from) <= runnable.len(),
        first_position(runnable, task, from) < runnable.len() ==> runnable[first_position(
            runnable,
            task,
            from,
        )] == task,
        forall|i: int|
            from <= i < first_position(runnable, task, from) ==> #[trigger] runnable[i] != task,
    decreases runnable.len() - from,
{
    if from < runnable.len() && runnable[from] != task {
        lemma_where_it_stands_first(runnable, task, from + 1);
    }
}

/// At a point that no execution has come to, the search takes the first option. At one that it
/// remembers, it makes the same choice again while options are left further down, whatever is
/// runnable. Where none are left there, it goes on to the option behind the last choice and forgets
/// what was further down; it can do so exactly if there is such an option and the choice is not
/// marked as the last one. What it chose is remembered, with whether it was the last option.
pub proof fn law_how_a_choice_is_made(dfs: DfsView, runnable: Seq<TaskId>, at: int)
    ensures
        ({
            let here = dfs.steps as int;
            let next = dfs.choice(runnable);
            let after = dfs.after_choice(runnable);
            let known = here < dfs.levels.len();
            let more_below = exists|j: int|
                here < j < dfs.levels.len() && !(#[trigger] dfs.levels[j]).1;
            &&& after.steps == here + 1
            &&& after == (DfsView { steps: after.steps, levels: after.levels, ..dfs })
            &&& !known ==> {
                &&& dfs.can_choose(runnable) <==> runnable.len() > 0
                &&& next == runnable[0]
                &&& after.levels.len() == dfs.levels.len() + 1
                &&& after.levels.drop_last() == dfs.levels
                &&& after.levels.last() == (next, runnable.len() == 1)
            }
            &&& known && more_below ==> {
                &&& dfs.can_choose(runnable)
                &&& next == dfs.levels[here].0
                &&& after.levels == dfs.levels
            }
            &&& known && !more_below && is_first_at(runnable, dfs.levels[here].0, at) ==> {
                &&& dfs.can_choose(runnable) <==> !dfs.levels[here].1 && at + 1 < runnable.len()
                &&& next == runnable[at + 1]
                &&& after.levels.len() == here + 1
                &&& after.levels.take(here) == dfs.levels.take(here)
                &&& after.levels[here] == (next, at + 2 == runnable.len())
            }
            &&& known && !more_below && !runnable.contains(dfs.levels[here].0)
                ==> !dfs.can_choose(runnable)
        }),
{
    let here = dfs.steps as int;
    let after = dfs.after_choice(runnable);
    if here >= dfs.levels.len() {
        assert(after.levels.drop_last() =~= dfs.levels);
    } else if dfs.repeats() {
        let j = choose|j: int| here + 1 <= j < dfs.levels.len() && !(#[trigger] dfs.levels[j]).1;
        assert(!dfs.levels[j].1);
    } else {
        let last = dfs.levels[here].0;
        lemma_where_it_stands_first(runnable, last, 0);
        let found = first_position(runnable, last, 0);
        if is_first_at(runnable, last, at) {
            assert(runnable[at] == last);
            assert(found == at);
            assert(after.levels.take(here) =~= dfs.levels.take(here));
        }
        if !runnable.contains(last) {
            assert(found == runnable.len());
        }
    }
}

/// A search begins without executions behind it and knows of no point. It starts another execution
/// exactly while the limit, if there is one, is above the number of those that it has started, and
/// some choice that it remembers was not the last option, unless there was no execution yet. An
/// execution starts at the top and with the random values from the beginning; a draw takes one of
/// these, and no choice of the search is affected by it.
pub proof fn law_how_a_search_goes_on(
    max_iterations: Option<usize>,
    allow_random_data: bool,
    dfs: DfsView,
    n: nat,
)
    ensures
        ({
            let fresh = DfsView::fresh(max_iterations, allow_random_data);
            &&& fresh.max_iterations == max_iterations
            &&& fresh.allow_random_data == allow_random_data
            &&& fresh.iterations == 0
            &&& fresh.levels.len() == 0
            &&& fresh.steps == 0
            &&& (fresh.random)(n) == pcg_seeded_draw(0x12345678, n)
        }),
        dfs.can_start() <==> {
            &&& dfs.max_iterations matches Some(limit) ==> dfs.iterations < limit
            &&& dfs.iterations == 0 || exists|j: int|
                0 <= j < dfs.levels.len() && !(#[trigger] dfs.levels[j]).1
        },
        dfs.started().iterations == dfs.iterations + 1,
        dfs.started().steps == 0,
        dfs.started().levels == dfs.levels,
        (dfs.started().random)(n) == pcg_seeded_draw(0x12345678, n),
        dfs.started() == (DfsView {
            iterations: dfs.started().iterations,
            steps: dfs.started().steps,
            random: dfs.started().random,
            ..dfs
        }),
        (dfs.after_draw().random)(n) == (dfs.random)(n + 1),
        dfs.after_draw() == (DfsView { random: dfs.after_draw().random, ..dfs }),
{
}

/// What a search can be asked for.
pub enum DfsEvent {
    /// Another execution, which is started if the search is not done.
    Start,
    /// A choice among these runnable tasks.
    Choice(Seq<TaskId>),
    /// A random value.
    Draw,
}

/// The search after some events.
pub open spec fn after_events(dfs: DfsView, events: Seq<DfsEvent>) -> DfsView
    decreases events.len(),
{
    if events.len() == 0 {
        dfs
    } else {
        let before = after_events(dfs, events.drop_last());
        match events.last() {
            DfsEvent::Start => if before.can_start() {
                before.started()
            } else {
                before
            },
            DfsEvent::Choice(runnable) => before.after_choice(runnable),
            DfsEvent::Draw => before.after_draw(),
        }
    }
}

/// How many of the events are draws.
pub open spec fn draws(events: Seq<DfsEvent>) -> nat
    decreases events.len(),
{
    if events.len() == 0 {
        0
    } else {
        draws(events.drop_last()) + if events.last() is Draw {
            1nat
        } else {
            0nat
        }
    }
}

/// Each execution draws the same random values: whatever the search went through before, and
/// whatever choices are made in between, the draw number `n` of an execution is the value number
/// `n` of one fixed stream.
pub proof fn law_executions_draw_the_same_values(dfs: DfsView, events: Seq<DfsEvent>)
    requires
        forall|i: int| 0 <= i < events.len() ==> !(#[trigger] events[i] is Start),
    ensures
        (after_events(dfs.started(), events).random)(0) == (random_stream())(draws(events)),
        (after_events(dfs.started(), events).random)(0) == pcg_seeded_draw(
            0x12345678,
            draws(events),
        ),
{
    lemma_stream_after(dfs, events, 0);
}

proof fn lemma_stream_after(dfs: DfsView, events: Seq<DfsEvent>, n: nat)
    requires
        forall|i: int| 0 <= i < events.len() ==> !(#[trigger] events[i] is Start),
    ensures
        (after_events(dfs.started(), events).random)(n) == (random_stream())(draws(events) + n),
    decreases events.len(),
{
    if events.len() > 0 {
        let before = events.drop_last();
        assert forall|i: int| 0 <= i < before.len() implies !(#[trigger] before[i] is Start) by {
            assert(before[i] == events[i]);
        }
        assert(!(events[events.len() - 1] is Start));
        lemma_stream_after(dfs, before, n);
        lemma_stream_after(dfs, before, n + 1);
    }
}

/// A search that was first asked for an execution always stands below all levels that it
/// remembers, or above one that has options left, whatever it is asked for after that. So where
/// it has to change a choice, that choice was not the last option there. And an execution was run,
/// or none may be.
pub proof fn law_a_choice_is_changed_only_where_options_are_left(
    max_iterations: Option<usize>,
    allow_random_data: bool,
    events: Seq<DfsEvent>,
)
    requires
        events.len() > 0,
        events[0] is Start,
    ensures
        ({
            let dfs = after_events(DfsView::fresh(max_iterations, allow_random_data), events);
            &&& dfs.iterations > 0 || dfs.limit_reached()
            &&& dfs.steps == dfs.levels.len() || more_choices(dfs.levels, dfs.steps as int)
            &&& !dfs.at_new_level() && !dfs.repeats() ==> !dfs.levels[dfs.steps as int].1
        }),
    decreases events.len(),
{
    let fresh = DfsView::fresh(max_iterations, allow_random_data);
    let dfs = after_events(fresh, events);
    let before = after_events(fresh, events.drop_last());
    if events.len() == 1 {
        assert(events.drop_last() =~= Seq::empty());
        assert(events.last() is Start);
    } else {
        law_a_choice_is_changed_only_where_options_are_left(
            max_iterations,
            allow_random_data,
            events.drop_last(),
        );
    }
}

} // verus!
