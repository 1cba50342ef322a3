//! The list of all topics handed to readers, with the number of the change
//! that produced it.
use std::sync::Arc;
use vstd::prelude::*;

verus! {

pub struct TopicsSnapshot<T> {
    pub topics: Arc<Vec<T>>,
    pub snapshot_id: usize,
}

impl<T> TopicsSnapshot<T> {
    pub fn new() -> (r: Self)
        ensures
            r.topics@ == Seq::<T>::empty(),
            r.snapshot_id == 0,
    {
        TopicsSnapshot { topics: Arc::new(Vec::new()), snapshot_id: 0 }
    }

    /// Replaces the list: one more change.
    pub fn update(&mut self, snapshot: Vec<T>)
        requires
            old(self).snapshot_id < usize::MAX,
        ensures
            final(self).topics@ == snapshot@,
            final(self).snapshot_id == old(self).snapshot_id + 1,
    {
        self.topics = Arc::new(snapshot);
        self.snapshot_id += 1;
    }
}

} // verus!
