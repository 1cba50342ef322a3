//! The queues of a topic, with a counter that changes whenever a queue is
//! added or removed.
use vstd::prelude::*;

use crate::queue_with_intervals::{ranges_set, ranges_well_formed, QueueWithIntervals};
use crate::queues::queue::{QueueSubscribersState, TopicQueue, TopicQueueType};
use crate::queues::queue_id::QueueId;
use crate::topics::topic_snapshot::TopicQueueSnapshot;

verus! {

/// `i` is the first queue of `qs` named `key`.
pub open spec fn is_first_named(qs: Seq<TopicQueue>, key: Seq<char>, i: int) -> bool {
    &&& 0 <= i < qs.len()
    &&& qs[i].queue_id@ == key
    &&& forall|j: int| 0 <= j < i ==> (#[trigger] qs[j]).queue_id@ != key
}

/// Some queue of `qs` is named `key`.
pub open spec fn has_named(qs: Seq<TopicQueue>, key: Seq<char>) -> bool {
    exists|i: int| 0 <= i < qs.len() && (#[trigger] qs[i]).queue_id@ == key
}

/// Index of the first queue of `qs` named `key`.
pub open spec fn first_named(qs: Seq<TopicQueue>, key: Seq<char>) -> int {
    choose|i: int| is_first_named(qs, key, i)
}

/// The queues that persistence keeps, in order.
pub open spec fn persisted_queues(qs: Seq<TopicQueue>) -> Seq<TopicQueue>
    decreases qs.len(),
{
    if qs.len() == 0 {
        Seq::empty()
    } else {
        let r = persisted_queues(qs.drop_last());
        if qs.last().queue_type != TopicQueueType::DeleteOnDisconnect {
            r.push(qs.last())
        } else {
            r
        }
    }
}

/// `s` is what persistence keeps of the queue `q`.
pub open spec fn is_snapshot_of(s: TopicQueueSnapshot, q: TopicQueue) -> bool {
    &&& s.queue_id@ == q.queue_id@
    &&& s.queue_type == q.queue_type
    &&& ranges_well_formed(s.ranges@)
    &&& ranges_set(s.ranges@) == q.queue@
}

/// The queues of `qs` without any subscriber, in order.
pub open spec fn no_subscriber_queues(qs: Seq<TopicQueue>) -> Seq<TopicQueue>
    decreases qs.len(),
{
    if qs.len() == 0 {
        Seq::empty()
    } else {
        let r = no_subscriber_queues(qs.drop_last());
        if qs.last().subscribers.amount == 0 {
            r.push(qs.last())
        } else {
            r
        }
    }
}

/// `qs` after taking out the first queue named `key`, when there is one.
pub open spec fn without_first_named(qs: Seq<TopicQueue>, key: Seq<char>) -> Seq<TopicQueue> {
    if has_named(qs, key) {
        qs.remove(first_named(qs, key))
    } else {
        qs
    }
}

/// `qs` after `remove` of each name of `names`, in order.
pub open spec fn without_named(qs: Seq<TopicQueue>, names: Seq<Seq<char>>) -> Seq<TopicQueue>
    decreases names.len(),
{
    if names.len() == 0 {
        qs
    } else {
        without_first_named(without_named(qs, names.drop_last()), names.last())
    }
}

/// How many of the `remove`s of each name of `names`, in order, find a queue.
pub open spec fn named_removals(qs: Seq<TopicQueue>, names: Seq<Seq<char>>) -> int
    decreases names.len(),
{
    if names.len() == 0 {
        0
    } else {
        named_removals(qs, names.drop_last()) + if has_named(
            without_named(qs, names.drop_last()),
            names.last(),
        ) {
            1int
        } else {
            0int
        }
    }
}

/// Persistence keeps every queue that is not deleted on disconnect, and
/// only such queues.
pub proof fn lemma_persisted_queues_are_the_lasting_ones(qs: Seq<TopicQueue>)
    ensures
        forall|i: int|
            0 <= i < qs.len() && (#[trigger] qs[i]).queue_type != TopicQueueType::DeleteOnDisconnect
                ==> exists|j: int| 0 <= j < persisted_queues(qs).len() && persisted_queues(qs)[j] == qs[i],
        forall|j: int|
            0 <= j < persisted_queues(qs).len() ==> (#[trigger] persisted_queues(qs)[j]).queue_type
                != TopicQueueType::DeleteOnDisconnect && exists|i: int|
                0 <= i < qs.len() && qs[i] == persisted_queues(qs)[j],
    decreases qs.len(),
{
    if qs.len() > 0 {
        let t = qs.drop_last();
        lemma_persisted_queues_are_the_lasting_ones(t);
        let p = persisted_queues(qs);
        let p0 = persisted_queues(t);
        assert forall|i: int|
            0 <= i < qs.len() && (#[trigger] qs[i]).queue_type != TopicQueueType::DeleteOnDisconnect
                implies exists|j: int| 0 <= j < p.len() && p[j] == qs[i] by {
            if i < t.len() {
                assert(qs[i] == t[i]);
                assert(t[i].queue_type != TopicQueueType::DeleteOnDisconnect);
                let j = choose|j: int| 0 <= j < p0.len() && p0[j] == t[i];
                assert(p[j] == p0[j]);
            } else {
                assert(qs[i] == qs.last());
                assert(p == p0.push(qs.last()));
                assert(p[p0.len() as int] == qs[i]);
            }
        }
        assert forall|j: int| 0 <= j < p.len() implies (#[trigger] p[j]).queue_type
            != TopicQueueType::DeleteOnDisconnect && exists|i: int| 0 <= i < qs.len() && qs[i] == p[j] by {
            if j < p0.len() {
                assert(p[j] == p0[j]);
                assert(p0[j].queue_type != TopicQueueType::DeleteOnDisconnect);
                let i = choose|i: int| 0 <= i < t.len() && t[i] == p0[j];
                assert(qs[i] == t[i]);
            } else {
                assert(p == p0.push(qs.last()));
                assert(p[j] == qs.last());
                assert(qs[qs.len() - 1] == qs.last());
            }
        }
    }
}

/// When some queue is named `key`, a first one is.
pub proof fn lemma_first_named_exists(qs: Seq<TopicQueue>, key: Seq<char>)
    requires
        has_named(qs, key),
    ensures
        is_first_named(qs, key, first_named(qs, key)),
    decreases qs.len(),
{
    let t = qs.drop_last();
    if has_named(t, key) {
        lemma_first_named_exists(t, key);
        let c = first_named(t, key);
        assert forall|j: int| 0 <= j < c implies (#[trigger] qs[j]).queue_id@ != key by {
            assert(qs[j] == t[j]);
        }
        assert(qs[c] == t[c]);
        assert(is_first_named(qs, key, c));
    } else {
        let w = choose|i: int| 0 <= i < qs.len() && (#[trigger] qs[i]).queue_id@ == key;
        let c = qs.len() - 1;
        if w < c {
            assert(t[w] == qs[w]);
        }
        assert forall|j: int| 0 <= j < c implies (#[trigger] qs[j]).queue_id@ != key by {
            assert(qs[j] == t[j]);
        }
        assert(is_first_named(qs, key, c));
    }
}

proof fn lemma_first_named_unique(qs: Seq<TopicQueue>, key: Seq<char>, i: int)
    requires
        is_first_named(qs, key, i),
    ensures
        first_named(qs, key) == i,
        has_named(qs, key),
{
    let c = first_named(qs, key);
    assert(is_first_named(qs, key, c));
    if c < i {
        assert(qs[c].queue_id@ != key);
    } else if c > i {
        assert(qs[i].queue_id@ != key);
    }
}

pub struct TopicQueuesList {
    queues: Vec<TopicQueue>,
    snapshot_id: usize,
}

impl TopicQueuesList {
    pub closed spec fn queues(&self) -> Seq<TopicQueue> {
        self.queues@
    }

    pub closed spec fn snapshot(&self) -> usize {
        self.snapshot_id
    }

    pub open spec fn wf(&self) -> bool {
        forall|i: int| 0 <= i < self.queues().len() ==> (#[trigger] self.queues()[i]).wf()
    }

    pub fn new() -> (r: Self)
        ensures
            r.wf(),
            r.queues() == Seq::<TopicQueue>::empty(),
            r.snapshot() == 0,
    {
        TopicQueuesList { queues: Vec::new(), snapshot_id: 0 }
    }

    pub fn get_snapshot_id(&self) -> (r: usize)
        ensures
            r == self.snapshot(),
    {
        self.snapshot_id
    }

    fn find_index(&self, queue_id: &str) -> (r: Option<usize>)
        ensures
            match r {
                Some(i) => is_first_named(self.queues(), queue_id@, i as int),
                None => !has_named(self.queues(), queue_id@),
            },
    {
        let n = self.queues.len();
        let mut i: usize = 0;
        while i < n
            invariant
                n == self.queues@.len(),
                i <= n,
                forall|j: int| 0 <= j < i ==> (#[trigger] self.queues@[j]).queue_id@ != queue_id@,
            decreases n - i,
        {
            if self.queues[i].queue_id.equals_str(queue_id) {
                return Some(i);
            }
            i += 1;
        }
        None
    }

    fn has_the_queue(&self, queue_id: &str) -> (r: bool)
        ensures
            r == has_named(self.queues(), queue_id@),
    {
        match self.find_index(queue_id) {
            Some(i) => {
                proof {
                    lemma_first_named_unique(self.queues@, queue_id@, i as int);
                }
                true
            },
            None => false,
        }
    }

    /// The first queue with that name.
    pub fn get(&self, queue_id: &str) -> (r: Option<&TopicQueue>)
        ensures
            match r {
                Some(q) => has_named(self.queues(), queue_id@) && *q == self.queues()[first_named(
                    self.queues(),
                    queue_id@,
                )],
                None => !has_named(self.queues(), queue_id@),
            },
    {
        match self.find_index(queue_id) {
            Some(i) => {
                proof {
                    lemma_first_named_unique(self.queues@, queue_id@, i as int);
                }
                Some(&self.queues[i])
            },
            None => None,
        }
    }

    /// The first queue with that name, to change.
    pub fn get_mut(&mut self, queue_id: &str) -> (r: Option<&mut TopicQueue>)
        ensures
            final(self).snapshot() == old(self).snapshot(),
            match r {
                Some(q) => has_named(old(self).queues(), queue_id@) && *q == old(self).queues()[first_named(
                    old(self).queues(),
                    queue_id@,
                )] && final(self).queues() == old(self).queues().update(
                    first_named(old(self).queues(), queue_id@),
                    *final(q),
                ),
                None => !has_named(old(self).queues(), queue_id@) && final(self).queues() == old(self).queues(),
            },
    {
        match self.find_index(queue_id) {
            Some(i) => {
                proof {
                    lemma_first_named_unique(self.queues@, queue_id@, i as int);
                }
                Some(&mut self.queues[i])
            },
            None => None,
        }
    }

    /// The queue with that name, created when there is none, with its type
    /// set to `queue_type`.
    pub fn add_queue_if_not_exists(
        &mut self,
        topic_id: String,
        queue_id: String,
        queue_type: TopicQueueType,
    ) -> (r: &mut TopicQueue)
        requires
            old(self).wf(),
            old(self).snapshot() < usize::MAX,
        ensures
            ({
                let added = !has_named(old(self).queues(), queue_id@);
                let i = if added {
                    old(self).queues().len() as int
                } else {
                    first_named(old(self).queues(), queue_id@)
                };
                &&& final(self).snapshot() == (if added {
                    old(self).snapshot() + 1
                } else {
                    old(self).snapshot() as int
                })
                &&& final(self).queues().len() == old(self).queues().len() + (if added {
                    1int
                } else {
                    0int
                })
                &&& 0 <= i < final(self).queues().len()
                &&& final(self).queues()[i] == *final(r)
                &&& forall|j: int|
                    0 <= j < old(self).queues().len() && j != i ==> #[trigger] final(self).queues()[j] == old(self).queues()[j]
                &&& added ==> r.topic_id == topic_id && r.queue@ == Set::<int>::empty()
                    && r.delivery_attempts@ == Map::<int, i32>::empty()
                &&& !added ==> r.topic_id == old(self).queues()[i].topic_id && r.queue@ == old(self).queues()[i].queue@ && r.delivery_attempts == old(self).queues()[i].delivery_attempts
                &&& r.queue_id@ == queue_id@
                &&& r.queue_type == queue_type
                &&& added ==> r.subscribers == (QueueSubscribersState {
                    amount: 0,
                    last_unsubscribe: 0,
                    min_on_delivery: None,
                })
                &&& !added ==> r.subscribers == old(self).queues()[i].subscribers
                &&& r.wf()
            }),
    {
        let ghost key = queue_id@;
        let idx = match self.find_index(queue_id.as_str()) {
            Some(i) => {
                proof {
                    lemma_first_named_unique(self.queues@, key, i as int);
                }
                i
            },
            None => {
                let queue = TopicQueue::new(
                    topic_id,
                    QueueId::new(queue_id),
                    queue_type,
                );
                self.queues.push(queue);
                self.snapshot_id += 1;
                let i = self.queues.len() - 1;
                proof {
                    assert forall|j: int| 0 <= j < i implies (#[trigger] self.queues@[j]).queue_id@
                        != key by {
                        assert(self.queues@[j] == old(self).queues@[j]);
                    }
                    assert(is_first_named(self.queues@, key, i as int));
                    lemma_first_named_unique(self.queues@, key, i as int);
                }
                i
            },
        };
        let ghost mid = self.queues@;
        assert(self.queues()[idx as int].wf()) by {
            if idx < old(self).queues().len() {
                assert(self.queues()[idx as int] == old(self).queues()[idx as int]);
            }
        }
        let r = &mut self.queues[idx];
        r.update_queue_type(queue_type);
        r
    }

    /// Adds a queue brought back from persistence and answers the first
    /// queue with its name.
    pub fn restore(
        &mut self,
        topic_id: String,
        queue_id: String,
        queue_type: TopicQueueType,
        queue: QueueWithIntervals,
    ) -> (r: &TopicQueue)
        requires
            old(self).wf(),
            old(self).snapshot() < usize::MAX,
            queue.wf(),
        ensures
            final(self).wf(),
            final(self).snapshot() == old(self).snapshot() + 1,
            final(self).queues().len() == old(self).queues().len() + 1,
            final(self).queues().take(old(self).queues().len() as int) == old(self).queues(),
            final(self).queues().last().topic_id == topic_id,
            final(self).queues().last().queue_id@ == queue_id@,
            final(self).queues().last().queue_type == queue_type,
            final(self).queues().last().queue@ == queue@,
            final(self).queues().last().subscribers == (QueueSubscribersState {
                amount: 0,
                last_unsubscribe: 0,
                min_on_delivery: None,
            }),
            final(self).queues().last().delivery_attempts@ == Map::<int, i32>::empty(),
            has_named(final(self).queues(), queue_id@),
            *r == final(self).queues()[first_named(final(self).queues(), queue_id@)],
    {
        let ghost key = queue_id@;
        let key_copy = queue_id.clone();
        let topic_queue = TopicQueue::restore(topic_id, QueueId::new(queue_id), queue_type, queue);
        self.queues.push(topic_queue);
        self.snapshot_id += 1;
        proof {
            assert(self.queues@.take(old(self).queues@.len() as int) =~= old(self).queues@);
            assert(self.queues@[self.queues@.len() - 1].queue_id@ == key);
            assert forall|i: int| 0 <= i < self.queues().len() implies (#[trigger] self.queues()[i]).wf() by {
                if i < old(self).queues().len() {
                    assert(self.queues()[i] == old(self).queues()[i]);
                }
            }
            assert(has_named(self.queues@, key));
        }
        match self.find_index(key_copy.as_str()) {
            Some(i) => {
                proof {
                    lemma_first_named_unique(self.queues@, key, i as int);
                }
                &self.queues[i]
            },
            None => {
                proof {
                    assert(false);
                }
                &self.queues[0]
            },
        }
    }

    /// Takes out the first queue with that name.
    pub fn remove(&mut self, queue_id: &str) -> (r: Option<TopicQueue>)
        requires
            old(self).wf(),
            old(self).snapshot() < usize::MAX,
        ensures
            final(self).wf(),
            match r {
                Some(q) => has_named(old(self).queues(), queue_id@) && q == old(self).queues()[first_named(
                    old(self).queues(),
                    queue_id@,
                )] && final(self).queues() == old(self).queues().remove(
                    first_named(old(self).queues(), queue_id@),
                ) && final(self).snapshot() == old(self).snapshot() + 1,
                None => !has_named(old(self).queues(), queue_id@) && final(self).queues() == old(self).queues() && final(self).snapshot() == old(self).snapshot(),
            },
    {
        match self.find_index(queue_id) {
            Some(index) => {
                proof {
                    lemma_first_named_unique(self.queues@, queue_id@, index as int);
                }
                let result = self.queues.remove(index);
                self.snapshot_id += 1;
                proof {
                    assert forall|i: int| 0 <= i < self.queues@.len() implies (
                    #[trigger] self.queues@[i]).wf() by {
                        if i < index {
                            assert(self.queues@[i] == old(self).queues@[i]);
                        } else {
                            assert(self.queues@[i] == old(self).queues@[i + 1]);
                        }
                    }
                }
                Some(result)
            },
            None => None,
        }
    }

    pub fn get_all(&self) -> (r: &[TopicQueue])
        ensures
            r@ == self.queues(),
    {
        self.queues.as_slice()
    }

    pub fn get_all_mut(&mut self) -> (r: &mut Vec<TopicQueue>)
        ensures
            r@ == old(self).queues(),
            final(self).queues() == final(r)@,
            final(self).snapshot() == old(self).snapshot(),
    {
        &mut self.queues
    }

    /// What persistence keeps of the queues, in their order.
    pub fn get_snapshot_to_persist(&self) -> (r: Vec<TopicQueueSnapshot>)
        requires
            self.wf(),
        ensures
            r@.len() == persisted_queues(self.queues()).len(),
            forall|i: int|
                0 <= i < r@.len() ==> is_snapshot_of(
                    #[trigger] r@[i],
                    persisted_queues(self.queues())[i],
                ),
            forall|i: int|
                0 <= i < self.queues().len() && (#[trigger] self.queues()[i]).queue_type
                    != TopicQueueType::DeleteOnDisconnect ==> exists|j: int|
                    0 <= j < r@.len() && is_snapshot_of(r@[j], self.queues()[i]),
            forall|j: int|
                0 <= j < r@.len() ==> (#[trigger] r@[j]).queue_type
                    != TopicQueueType::DeleteOnDisconnect,
    {
        let mut result: Vec<TopicQueueSnapshot> = Vec::new();
        let n = self.queues.len();
        let mut k: usize = 0;
        while k < n
            invariant
                n == self.queues@.len(),
                k <= n,
                self.wf(),
                result@.len() == persisted_queues(self.queues@.take(k as int)).len(),
                forall|i: int|
                    0 <= i < result@.len() ==> is_snapshot_of(
                        #[trigger] result@[i],
                        persisted_queues(self.queues@.take(k as int))[i],
                    ),
            decreases n - k,
        {
            let ghost t = self.queues@.take(k as int);
            let ghost t1 = self.queues@.take(k + 1);
            assert(t1.drop_last() =~= t);
            assert(self.queues()[k as int].wf());
            let get_snapshot_to_persist_result = self.queues[k].get_snapshot_to_persist();
            if let Some(snapshot_to_persist) = get_snapshot_to_persist_result {
                result.push(snapshot_to_persist);
            }
            proof {
                assert forall|i: int| 0 <= i < result@.len() implies is_snapshot_of(
                    #[trigger] result@[i],
                    persisted_queues(t1)[i],
                ) by {
                    if i < persisted_queues(t).len() {
                        assert(persisted_queues(t1)[i] == persisted_queues(t)[i]);
                    }
                }
            }
            k += 1;
        }
        assert(self.queues@.take(n as int) =~= self.queues@);
        proof {
            self.lemma_snapshot_covers(result@);
        }
        result
    }

    proof fn lemma_snapshot_covers(&self, r: Seq<TopicQueueSnapshot>)
        requires
            r.len() == persisted_queues(self.queues()).len(),
            forall|i: int|
                0 <= i < r.len() ==> is_snapshot_of(
                    #[trigger] r[i],
                    persisted_queues(self.queues())[i],
                ),
        ensures
            forall|i: int|
                0 <= i < self.queues().len() && (#[trigger] self.queues()[i]).queue_type
                    != TopicQueueType::DeleteOnDisconnect ==> exists|j: int|
                    0 <= j < r.len() && is_snapshot_of(r[j], self.queues()[i]),
            forall|j: int|
                0 <= j < r.len() ==> (#[trigger] r[j]).queue_type
                    != TopicQueueType::DeleteOnDisconnect,
    {
        let qs = self.queues();
        let p = persisted_queues(qs);
        lemma_persisted_queues_are_the_lasting_ones(qs);
        assert forall|i: int|
            0 <= i < qs.len() && (#[trigger] qs[i]).queue_type != TopicQueueType::DeleteOnDisconnect
                implies exists|j: int| 0 <= j < r.len() && is_snapshot_of(r[j], qs[i]) by {
            let j = choose|j: int| 0 <= j < p.len() && p[j] == qs[i];
            assert(is_snapshot_of(r[j], p[j]));
        }
        assert forall|j: int| 0 <= j < r.len() implies (#[trigger] r[j]).queue_type
            != TopicQueueType::DeleteOnDisconnect by {
            assert(is_snapshot_of(r[j], p[j]));
            assert(p[j].queue_type != TopicQueueType::DeleteOnDisconnect);
        }
    }
    /// The queues without any subscriber, in order; `None` when there is
    /// none.
    pub fn get_queues_with_no_subscribers(&self) -> (r: Option<Vec<&TopicQueue>>)
        ensures
            match r {
                None => no_subscriber_queues(self.queues()).len() == 0,
                Some(v) => v@.len() > 0 && v@.len() == no_subscriber_queues(self.queues()).len()
                    && forall|i: int|
                    0 <= i < v@.len() ==> *v@[i] == #[trigger] no_subscriber_queues(
                        self.queues(),
                    )[i],
            },
    {
        let mut result: Vec<&TopicQueue> = Vec::new();
        let n = self.queues.len();
        let mut k: usize = 0;
        while k < n
            invariant
                n == self.queues@.len(),
                k <= n,
                result@.len() == no_subscriber_queues(self.queues@.take(k as int)).len(),
                forall|i: int|
                    0 <= i < result@.len() ==> *result@[i] == #[trigger] no_subscriber_queues(
                        self.queues@.take(k as int),
                    )[i],
            decreases n - k,
        {
            let ghost t = self.queues@.take(k as int);
            let ghost t1 = self.queues@.take(k + 1);
            assert(t1.drop_last() =~= t);
            let queue = &self.queues[k];
            if queue.subscribers.amount == 0 {
                result.push(queue);
            }
            proof {
                assert forall|i: int| 0 <= i < result@.len() implies *result@[i]
                    == #[trigger] no_subscriber_queues(t1)[i] by {
                    if i < no_subscriber_queues(t).len() {
                        assert(no_subscriber_queues(t1)[i] == no_subscriber_queues(t)[i]);
                    }
                }
            }
            k += 1;
        }
        assert(self.queues@.take(n as int) =~= self.queues@);
        if result.len() == 0 {
            None
        } else {
            Some(result)
        }
    }
}

} // verus!
