//! Vector clocks: which events happened before which.

use vstd::prelude::*;

use crate::runtime::task_id::TaskId;

verus! {

/// The counter that the clock `time` keeps for the task `i`. A task that it does not know counts 0.
pub open spec fn entry(time: Seq<u32>, i: int) -> u32 {
    if 0 <= i < time.len() {
        time[i]
    } else {
        0
    }
}

/// The clock `time` with entries for the first `n` tasks at least.
pub open spec fn extended(time: Seq<u32>, n: nat) -> Seq<u32> {
    if n <= time.len() {
        time
    } else {
        Seq::new(n, |i: int| entry(time, i))
    }
}

/// The clock `time` after one more event of the task `i`.
pub open spec fn incremented(time: Seq<u32>, i: int) -> Seq<u32> {
    time.update(i, (time[i] + 1) as u32)
}

/// The clock of someone who knows what both clocks know.
pub open spec fn merged(a: Seq<u32>, b: Seq<u32>) -> Seq<u32> {
    Seq::new(
        if a.len() >= b.len() {
            a.len()
        } else {
            b.len()
        },
        |i: int|
            if entry(a, i) >= entry(b, i) {
                entry(a, i)
            } else {
                entry(b, i)
            },
    )
}

/// What happened by the clock `a` also happened by the clock `b`.
pub open spec fn happened_by(a: Seq<u32>, b: Seq<u32>) -> bool {
    forall|i: int| #[trigger] entry(a, i) <= entry(b, i)
}

/// The causal past of a task: for each task how many of its events are known to have happened.
#[derive(Debug)]
pub struct VectorClock {
    time: Vec<u32>,
}

impl View for VectorClock {
    type V = Seq<u32>;

    closed spec fn view(&self) -> Seq<u32> {
        self.time@
    }
}

impl Clone for VectorClock {
    fn clone(&self) -> (clock: Self)
        ensures
            clock@ == self@,
    {
        let mut time: Vec<u32> = Vec::new();
        let mut i: usize = 0;
        while i < self.time.len()
            invariant
                i <= self.time@.len(),
                time@ == self.time@.take(i as int),
            decreases self.time@.len() - i,
        {
            time.push(self.time[i]);
            i += 1;
            assert(self.time@.take(i as int) =~= self.time@.take(i - 1).push(self.time@[i - 1]));
        }
        assert(self.time@.take(i as int) =~= self.time@);
        VectorClock { time }
    }
}

impl VectorClock {
    /// A clock that knows of no task.
    pub fn new() -> (clock: Self)
        ensures
            clock@ == Seq::<u32>::empty(),
    {
        VectorClock { time: Vec::new() }
    }

    /// The counter of `task`.
    pub fn get(&self, task: TaskId) -> (count: u32)
        ensures
            count == entry(self@, task.0 as int),
    {
        if task.0 < self.time.len() {
            self.time[task.0]
        } else {
            0
        }
    }

    /// How many tasks the clock has counters for.
    pub fn len(&self) -> (n: usize)
        ensures
            n == self@.len(),
    {
        self.time.len()
    }

    /// Makes room for a counter of `task`.
    pub fn extend(&mut self, task: TaskId)
        ensures
            final(self)@ == extended(old(self)@, task.0 as nat + 1),
    {
        let ghost before = self.time@;
        while self.time.len() <= task.0
            invariant
                before.len() <= self.time@.len(),
                self.time@.len() > before.len() ==> self.time@.len() <= task.0 + 1,
                forall|i: int| 0 <= i < self.time@.len() ==> #[trigger] self.time@[i] == entry(before, i),
            decreases task.0 + 1 - self.time@.len(),
        {
            self.time.push(0);
        }
        proof {
            if self.time@.len() == before.len() {
                assert(self.time@ =~= before);
            } else {
                assert(self.time@ =~= extended(before, task.0 as nat + 1));
            }
        }
    }

    /// Counts one more event of `task`.
    pub fn increment(&mut self, task: TaskId)
        requires
            task.0 < old(self)@.len(),
            old(self)@[task.0 as int] < u32::MAX,
        ensures
            final(self)@ == incremented(old(self)@, task.0 as int),
    {
        let count: u32 = self.time[task.0];
        self.time.set(task.0, count + 1);
    }

    /// Learns all that `other` knows.
    pub fn update(&mut self, other: &VectorClock)
        ensures
            final(self)@ == merged(old(self)@, other@),
    {
        let ghost before = self.time@;
        let mut i: usize = 0;
        while i < other.time.len()
            invariant
                i <= other.time@.len(),
                before.len() <= self.time@.len(),
                self.time@.len() > before.len() ==> self.time@.len() == i,
                i <= self.time@.len(),
                forall|j: int| 0 <= j < i ==> self.time@[j] == merged(before, other.time@)[j],
                forall|j: int| i <= j < self.time@.len() ==> self.time@[j] == before[j],
            decreases other.time@.len() - i,
        {
            if i < self.time.len() {
                if self.time[i] < other.time[i] {
                    self.time.set(i, other.time[i]);
                }
            } else {
                self.time.push(other.time[i]);
            }
            i += 1;
        }
        assert(self.time@ =~= merged(before, other.time@));
    }
}

/// A clock is reached by itself, and what is reached by way of another clock is reached.
pub proof fn law_happened_by_is_an_order(a: Seq<u32>, b: Seq<u32>, c: Seq<u32>)
    ensures
        happened_by(a, a),
        happened_by(a, b) && happened_by(b, c) ==> happened_by(a, c),
        happened_by(a, b) && happened_by(b, a) ==> forall|i: int|
            #[trigger] entry(a, i) == entry(b, i),
{
    if happened_by(a, b) && happened_by(b, c) {
        assert forall|i: int| #[trigger] entry(a, i) <= entry(c, i) by {
            assert(entry(a, i) <= entry(b, i));
            assert(entry(b, i) <= entry(c, i));
        }
    }
    if happened_by(a, b) && happened_by(b, a) {
        assert forall|i: int| #[trigger] entry(a, i) == entry(b, i) by {
            assert(entry(b, i) <= entry(a, i));
        }
    }
}

/// A merged clock knows what each of the two knows, and no more than anyone who knows both.
pub proof fn law_merge_is_the_least_common_future(a: Seq<u32>, b: Seq<u32>, c: Seq<u32>)
    ensures
        happened_by(a, merged(a, b)),
        happened_by(b, merged(a, b)),
        happened_by(a, c) && happened_by(b, c) ==> happened_by(merged(a, b), c),
{
    if happened_by(a, c) && happened_by(b, c) {
        assert forall|i: int| #[trigger] entry(merged(a, b), i) <= entry(c, i) by {
            assert(entry(a, i) <= entry(c, i));
            assert(entry(b, i) <= entry(c, i));
        }
    }
}

} // verus!
