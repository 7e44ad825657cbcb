//! The task-local values of one task, and the order in which they are destroyed.

use vstd::prelude::*;

verus! {

/// The keys of a task's local values in the order in which they were initialized, and how many of
/// them, from the front, have been destroyed.
#[verifier::ext_equal]
pub struct StorageView {
    pub keys: Seq<usize>,
    pub destroyed: nat,
}

impl StorageView {
    /// No key is initialized twice, and no more is destroyed than was initialized.
    pub open spec fn wf(self) -> bool {
        self.keys.no_duplicates() && self.destroyed <= self.keys.len()
    }

    /// Some value is still alive.
    pub open spec fn has_live(self) -> bool {
        self.destroyed < self.keys.len()
    }

    /// The oldest value that is still alive.
    pub open spec fn oldest(self) -> usize {
        self.keys[self.destroyed as int]
    }

    /// The storage after the oldest live value was handed out, if there is one.
    pub open spec fn popped(self) -> StorageView {
        if self.has_live() {
            StorageView { destroyed: self.destroyed + 1, ..self }
        } else {
            self
        }
    }

    /// The storage after `key` was initialized.
    pub open spec fn initialized(self, key: usize) -> StorageView {
        StorageView { keys: self.keys.push(key), ..self }
    }
}

/// The local values of a task, each known by its key.
#[derive(Debug)]
pub struct StorageMap {
    keys: Vec<usize>,
    destroyed: usize,
}

impl View for StorageMap {
    type V = StorageView;

    closed spec fn view(&self) -> StorageView {
        StorageView { keys: self.keys@, destroyed: self.destroyed as nat }
    }
}

impl StorageMap {
    /// Storage that holds nothing.
    pub fn new() -> (storage: Self)
        ensures
            storage@ == (StorageView { keys: Seq::empty(), destroyed: 0 }),
            storage@.wf(),
    {
        StorageMap { keys: Vec::new(), destroyed: 0 }
    }

    /// Whether `key` was ever initialized, be its value alive or destroyed.
    pub fn contains(&self, key: usize) -> (found: bool)
        ensures
            found == self@.keys.contains(key),
    {
        let mut i: usize = 0;
        while i < self.keys.len()
            invariant
                i <= self.keys@.len(),
                forall|j: int| 0 <= j < i ==> self.keys@[j] != key,
            decreases self.keys@.len() - i,
        {
            if self.keys[i] == key {
                assert(self.keys@[i as int] == key);
                return true;
            }
            i += 1;
        }
        false
    }

    /// Records that the value of `key` was initialized. A destroyed value cannot come back.
    pub fn init(&mut self, key: usize)
        requires
            old(self)@.wf(),
            !old(self)@.keys.contains(key),
        ensures
            final(self)@ == old(self)@.initialized(key),
            final(self)@.wf(),
    {
        self.keys.push(key);
    }

    /// Hands out the oldest value that is still alive, for the caller to destroy.
    pub fn pop(&mut self) -> (key: Option<usize>)
        requires
            old(self)@.wf(),
        ensures
            final(self)@ == old(self)@.popped(),
            final(self)@.wf(),
            key == if old(self)@.has_live() {
                Some(old(self)@.oldest())
            } else {
                None
            },
    {
        if self.destroyed < self.keys.len() {
            let key: usize = self.keys[self.destroyed];
            self.destroyed = self.destroyed + 1;
            Some(key)
        } else {
            None
        }
    }
}

} // verus!
