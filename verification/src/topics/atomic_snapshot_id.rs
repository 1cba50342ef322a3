//! The snapshot id and length of the topics list last handed out.
use vstd::prelude::*;

use crate::topics::reusable_topics_list::ReusableTopicsList;

verus! {

pub struct AtomicSnapshotId {
    snapshot_id: usize,
    len: usize,
}

impl AtomicSnapshotId {
    pub closed spec fn snapshot(&self) -> usize {
        self.snapshot_id
    }

    pub closed spec fn length(&self) -> usize {
        self.len
    }

    pub fn new() -> (r: Self)
        ensures
            r.snapshot() == 0,
            r.length() == 0,
    {
        AtomicSnapshotId { snapshot_id: 0, len: 0 }
    }

    pub fn get_snapshot_id(&self) -> (r: usize)
        ensures
            r == self.snapshot(),
    {
        self.snapshot_id
    }

    pub fn get_len(&self) -> (r: usize)
        ensures
            r == self.length(),
    {
        self.len
    }

    pub fn update_snapshot_id(&mut self, value: usize)
        ensures
            final(self).snapshot() == value,
            final(self).length() == old(self).length(),
    {
        self.snapshot_id = value;
    }

    pub fn update_len(&mut self, value: usize)
        ensures
            final(self).length() == value,
            final(self).snapshot() == old(self).snapshot(),
    {
        self.len = value;
    }

    /// The list was built from the snapshot recorded here and has the
    /// recorded length.
    pub fn has_the_same_snapshot_id<T>(&self, reusable_topic_id: &ReusableTopicsList<T>) -> (r: bool)
        ensures
            r == (reusable_topic_id.snapshot() == Some(self.snapshot())
                && reusable_topic_id@.len() == self.length()),
    {
        reusable_topic_id.check_with_snapshot_id(self.get_snapshot_id())
            && self.get_len() == reusable_topic_id.len()
    }
}

} // verus!
