//! The ids handed to a subscriber in one delivery, split into the ones still
//! waiting for confirmation and the ones confirmed.
use vstd::prelude::*;

use crate::queue_with_intervals::QueueWithIntervals;

verus! {

pub struct DeliveryBucket {
    pub to_be_confirmed: QueueWithIntervals,
    pub confirmed: QueueWithIntervals,
}

impl DeliveryBucket {
    pub open spec fn wf(&self) -> bool {
        self.to_be_confirmed.wf() && self.confirmed.wf()
    }

    pub fn new(ids: QueueWithIntervals) -> (r: Self)
        requires
            ids.wf(),
        ensures
            r.wf(),
            r.to_be_confirmed@ == ids@,
            r.confirmed@ == Set::<int>::empty(),
    {
        DeliveryBucket { to_be_confirmed: ids, confirmed: QueueWithIntervals::new() }
    }

    /// The subscriber confirmed these ids.
    pub fn confirmed(&mut self, confirmed: &QueueWithIntervals)
        requires
            old(self).wf(),
            confirmed.wf(),
        ensures
            final(self).wf(),
            final(self).confirmed@ == old(self).confirmed@.union(confirmed@),
            final(self).to_be_confirmed@ == old(self).to_be_confirmed@.difference(confirmed@),
    {
        self.confirmed.merge_with(confirmed);
        self.to_be_confirmed.remove_all(confirmed);
    }
}

} // verus!
