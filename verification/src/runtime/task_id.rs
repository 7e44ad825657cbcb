//! The small values that name and mark tasks.

use vstd::prelude::*;

verus! {

/// The identity of a task: its position in creation order. Task 0 is the main task.
#[derive(Clone, Copy, Debug, PartialEq, Eq, PartialOrd, Ord, Hash, Structural)]
pub struct TaskId(pub usize);

/// A mark that a test can put on a task, and that the tasks it spawns inherit.
#[derive(Clone, Copy, Debug, PartialEq, Eq, PartialOrd, Ord, Hash, Structural)]
pub struct Tag(pub u64);

impl Default for Tag {
    /// The mark of a task that was given none.
    fn default() -> (tag: Self)
        ensures
            tag == Tag(0),
    {
        Tag(0)
    }
}

} // verus!
