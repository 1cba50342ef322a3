//! A queue of a topic: the ids of the messages its subscribers still have to
//! receive, and the count of failed deliveries of each.
use vstd::prelude::*;

use crate::messages::message::MySbMessageContent;
use crate::messages::sub_page::{find_message, ids_of, sub_page_of, GetMessageResult, SubPage, SubPageId};
use crate::queue_with_intervals::{
    id_range, is_min_of, lemma_ranges_take_ends, lemma_ranges_take_step, ranges_set,
    ranges_well_formed, QueueIndexRange, QueueWithIntervals,
};
use crate::queues::delivery_attempts::{attempt_of, bumped, DeliveryAttempts};
use crate::queues::queue_id::QueueId;
use crate::topics::topic_snapshot::TopicQueueSnapshot;

verus! {

/// How a queue lives on when its subscribers go.
#[derive(Clone, Copy, Debug, PartialEq, Eq, Structural)]
pub enum TopicQueueType {
    /// Kept, and persisted.
    Permanent,
    /// Deleted some time after the last subscriber left; never persisted.
    DeleteOnDisconnect,
    /// Kept and persisted; one subscriber at a time.
    PermanentWithSingleConnection,
}

/// What `compile_sub_page` took out of the queue.
pub enum CompileSubpageResult<'s> {
    /// Messages to deliver, each with its count of failed deliveries.
    OkMessages(Vec<(i32, &'s MySbMessageContent)>),
    /// Messages to deliver, and then an id whose message was garbage
    /// collected.
    OkWithGcFound(Vec<(i32, &'s MySbMessageContent)>),
    /// Nothing to deliver: the first id's message was garbage collected.
    GcFound,
    /// Nothing to deliver.
    Empty,
}

/// What taking messages of the sub page `sub_page_id` out of the queue `q`
/// gives, when `size` bytes are already taken: the queue left, the ids taken
/// whose messages are in memory, and whether it stopped at a message that was
/// garbage collected. Ids are taken smallest first while the size taken is at
/// most `max`; an id of another sub page or of a garbage-collected message
/// stops it; an id the sub page never held is dropped.
pub open spec fn compile_plan(
    q: Set<int>,
    page: SubPage,
    sub_page_id: int,
    max: int,
    size: int,
) -> (Set<int>, Seq<int>, bool)
    decreases q.len(),
    when q.finite()
{
    if size > max || !(exists|m: int| is_min_of(q, m)) {
        (q, Seq::empty(), false)
    } else {
        let m = choose|m: int| is_min_of(q, m);
        if sub_page_of(m) != sub_page_id {
            (q, Seq::empty(), false)
        } else if ids_of(page.messages()).contains(m) {
            let r = compile_plan(
                q.remove(m),
                page,
                sub_page_id,
                max,
                size + find_message(page.messages(), m).content.len(),
            );
            (r.0, seq![m] + r.1, r.2)
        } else if page.collected().contains(m) {
            (q, Seq::empty(), true)
        } else {
            compile_plan(q.remove(m), page, sub_page_id, max, size)
        }
    }
}

/// `v` holds, for each id of `ids` in order, the message and its count of
/// failed deliveries.
pub open spec fn delivered_as(
    v: Seq<(i32, &MySbMessageContent)>,
    ids: Seq<int>,
    page: SubPage,
    attempts: Map<int, i32>,
) -> bool {
    &&& v.len() == ids.len()
    &&& forall|i: int|
        0 <= i < v.len() ==> (#[trigger] v[i]).1.id == ids[i] && *v[i].1 == *find_message(
            page.messages(),
            ids[i],
        ) && v[i].0 == attempt_of(attempts, ids[i])
}

/// The same map with one more failed delivery for every id of `ids`.
pub open spec fn bumped_all(m: Map<int, i32>, ids: Set<int>) -> Map<int, i32> {
    Map::new(
        |k: int| m.contains_key(k) || ids.contains(k),
        |k: int|
            if ids.contains(k) {
                if m.contains_key(k) {
                    (m[k] + 1) as i32
                } else {
                    0i32
                }
            } else {
                m[k]
            },
    )
}

proof fn lemma_min_unique(q: Set<int>, a: int, b: int)
    requires
        is_min_of(q, a),
        is_min_of(q, b),
    ensures
        a == b,
{
}

/// What a queue knows of its subscribers.
#[derive(Clone, Copy, Debug, PartialEq, Eq, Structural)]
pub struct QueueSubscribersState {
    /// How many subscribers the queue has.
    pub amount: usize,
    /// Moment (microseconds since the Unix epoch) the last subscriber
    /// left; 0 until one has left.
    pub last_unsubscribe: i64,
    /// The smallest id of the messages handed to subscribers and not yet
    /// confirmed, if any.
    pub min_on_delivery: Option<i64>,
}

pub struct TopicQueue {
    pub topic_id: String,
    pub queue_id: QueueId,
    pub queue: QueueWithIntervals,
    pub subscribers: QueueSubscribersState,
    pub delivery_attempts: DeliveryAttempts,
    pub queue_type: TopicQueueType,
}

impl TopicQueue {
    pub open spec fn wf(&self) -> bool {
        &&& self.queue.wf()
        &&& self.delivery_attempts.wf()
    }

    pub fn get_key(&self) -> (r: &str)
        ensures
            r@ == self.queue_id@,
    {
        self.queue_id.as_str()
    }

    pub fn new(topic_id: String, queue_id: QueueId, queue_type: TopicQueueType) -> (r: Self)
        ensures
            r.wf(),
            r.topic_id == topic_id,
            r.queue_id@ == queue_id@,
            r.queue_type == queue_type,
            r.queue@ == Set::<int>::empty(),
            r.subscribers == (QueueSubscribersState { amount: 0, last_unsubscribe: 0, min_on_delivery: None }),
            r.delivery_attempts@ == Map::<int, i32>::empty(),
    {
        TopicQueue {
            topic_id,
            queue_id,
            queue: QueueWithIntervals::new(),
            subscribers: QueueSubscribersState { amount: 0, last_unsubscribe: 0, min_on_delivery: None },
            delivery_attempts: DeliveryAttempts::new(),
            queue_type,
        }
    }

    /// A queue brought back from persistence with the ids it held.
    pub fn restore(
        topic_id: String,
        queue_id: QueueId,
        queue_type: TopicQueueType,
        queue: QueueWithIntervals,
    ) -> (r: Self)
        requires
            queue.wf(),
        ensures
            r.wf(),
            r.topic_id == topic_id,
            r.queue_id@ == queue_id@,
            r.queue_type == queue_type,
            r.queue@ == queue@,
            r.subscribers == (QueueSubscribersState { amount: 0, last_unsubscribe: 0, min_on_delivery: None }),
            r.delivery_attempts@ == Map::<int, i32>::empty(),
    {
        TopicQueue {
            topic_id,
            queue_id,
            queue,
            subscribers: QueueSubscribersState { amount: 0, last_unsubscribe: 0, min_on_delivery: None },
            delivery_attempts: DeliveryAttempts::new(),
            queue_type,
        }
    }

    /// The smallest id still to deliver.
    pub fn get_min_msg_id(&self) -> (r: Option<i64>)
        requires
            self.wf(),
        ensures
            match r {
                None => self.queue@ == Set::<int>::empty(),
                Some(m) => is_min_of(self.queue@, m as int),
            },
    {
        self.queue.get_min_id()
    }

    /// What persistence keeps of the queue; a queue deleted on disconnect is
    /// not kept.
    pub fn get_snapshot_to_persist(&self) -> (r: Option<TopicQueueSnapshot>)
        requires
            self.wf(),
        ensures
            match r {
                None => self.queue_type == TopicQueueType::DeleteOnDisconnect,
                Some(s) => self.queue_type != TopicQueueType::DeleteOnDisconnect && s.queue_id@
                    == self.queue_id@ && s.queue_type == self.queue_type && ranges_well_formed(
                    s.ranges@,
                ) && ranges_set(s.ranges@) == self.queue@,
            },
    {
        match self.queue_type {
            TopicQueueType::Permanent => Some(
                TopicQueueSnapshot {
                    queue_id: self.queue_id.to_string(),
                    queue_type: self.queue_type,
                    ranges: self.queue.get_snapshot(),
                },
            ),
            TopicQueueType::DeleteOnDisconnect => None,
            TopicQueueType::PermanentWithSingleConnection => Some(
                TopicQueueSnapshot {
                    queue_id: self.queue_id.to_string(),
                    queue_type: self.queue_type,
                    ranges: self.queue.get_snapshot(),
                },
            ),
        }
    }

    /// Adds the ids of new messages.
    pub fn enqueue_messages(&mut self, msgs: &QueueWithIntervals)
        requires
            old(self).wf(),
            msgs.wf(),
        ensures
            final(self).wf(),
            final(self).queue@ == old(self).queue@.union(msgs@),
            final(self).delivery_attempts@ == old(self).delivery_attempts@,
            final(self).topic_id == old(self).topic_id,
            final(self).queue_id@ == old(self).queue_id@,
            final(self).queue_type == old(self).queue_type,
            final(self).subscribers == old(self).subscribers,
    {
        self.queue.merge_with(msgs);
    }

    /// Sets the type when it differs.
    pub fn update_queue_type(&mut self, queue_type: TopicQueueType)
        ensures
            final(self).queue_type == queue_type,
            final(self).subscribers == old(self).subscribers,
            final(self).queue@ == old(self).queue@,
            final(self).queue.wf() == old(self).queue.wf(),
            final(self).delivery_attempts == old(self).delivery_attempts,
            final(self).topic_id == old(self).topic_id,
            final(self).queue_id == old(self).queue_id,
    {
        if !self.queue_type_is_about_to_change(queue_type) {
            return;
        }
        self.queue_type = queue_type;
    }

    pub fn get_queue_size(&self) -> (r: usize)
        requires
            self.wf(),
            self.queue@.len() <= usize::MAX,
        ensures
            r == self.queue@.len(),
    {
        self.queue.queue_size()
    }

    /// Delivery starts over at `message_id`: the queue holds the ids
    /// `message_id ..= max_message_id`.
    pub fn set_message_id(&mut self, message_id: i64, max_message_id: i64)
        requires
            old(self).wf(),
        ensures
            final(self).wf(),
            final(self).queue@ == id_range(message_id as int, max_message_id as int),
            final(self).delivery_attempts@ == old(self).delivery_attempts@,
            final(self).topic_id == old(self).topic_id,
            final(self).queue_id@ == old(self).queue_id@,
            final(self).queue_type == old(self).queue_type,
            final(self).subscribers == old(self).subscribers,
    {
        let mut intervals: Vec<QueueIndexRange> = Vec::new();
        intervals.push(QueueIndexRange { from_id: message_id, to_id: max_message_id });
        self.queue.reset(intervals);
        proof {
            let s = seq![QueueIndexRange { from_id: message_id, to_id: max_message_id }];
            assert(ranges_set(s) =~= id_range(message_id as int, max_message_id as int)) by {
                assert forall|x: int| id_range(message_id as int, max_message_id as int).contains(
                    x,
                ) implies ranges_set(s).contains(x) by {
                    assert(s[0].has(x));
                }
            }
        }
    }

    /// The subscriber got these messages: their failed deliveries are
    /// forgotten.
    pub fn confirm_delivered(&mut self, delivered_ids: &QueueWithIntervals)
        requires
            old(self).wf(),
            delivered_ids.wf(),
        ensures
            final(self).wf(),
            final(self).delivery_attempts@ == old(self).delivery_attempts@.remove_keys(
                delivered_ids@,
            ),
            final(self).queue@ == old(self).queue@,
            final(self).topic_id == old(self).topic_id,
            final(self).queue_id@ == old(self).queue_id@,
            final(self).queue_type == old(self).queue_type,
            final(self).subscribers == old(self).subscribers,
    {
        let ranges = delivered_ids.get_snapshot();
        let n = ranges.len();
        let mut k: usize = 0;
        proof {
            lemma_ranges_take_ends(ranges@);
            assert(old(self).delivery_attempts@.remove_keys(Set::<int>::empty())
                =~= old(self).delivery_attempts@);
        }
        while k < n
            invariant
                n == ranges@.len(),
                k <= n,
                self.wf(),
                self.queue@ == old(self).queue@,
                self.topic_id == old(self).topic_id,
                self.queue_id@ == old(self).queue_id@,
                self.queue_type == old(self).queue_type,
                self.subscribers == old(self).subscribers,
                self.delivery_attempts@ == old(self).delivery_attempts@.remove_keys(
                    ranges_set(ranges@.take(k as int)),
                ),
            decreases n - k,
        {
            let r = ranges[k];
            let ghost before = self.delivery_attempts@;
            if r.from_id <= r.to_id {
                let mut id = r.from_id;
                loop
                    invariant_except_break
                        self.delivery_attempts@ == before.remove_keys(
                            id_range(r.from_id as int, id - 1),
                        ),
                    invariant
                        r.from_id <= id <= r.to_id,
                        self.wf(),
                        self.queue@ == old(self).queue@,
                        self.topic_id == old(self).topic_id,
                        self.queue_id@ == old(self).queue_id@,
                        self.queue_type == old(self).queue_type,
                        self.subscribers == old(self).subscribers,
                    ensures
                        self.wf(),
                        self.queue@ == old(self).queue@,
                        self.topic_id == old(self).topic_id,
                        self.queue_id@ == old(self).queue_id@,
                        self.queue_type == old(self).queue_type,
                        self.subscribers == old(self).subscribers,
                        self.delivery_attempts@ == before.remove_keys(
                            id_range(r.from_id as int, r.to_id as int),
                        ),
                    decreases r.to_id - id,
                {
                    self.delivery_attempts.reset(id);
                    proof {
                        assert(before.remove_keys(id_range(r.from_id as int, id - 1)).remove(
                            id as int,
                        ) =~= before.remove_keys(id_range(r.from_id as int, id as int)));
                    }
                    if id == r.to_id {
                        break;
                    }
                    id = id + 1;
                }
            } else {
                assert(id_range(r.from_id as int, r.to_id as int) =~= Set::<int>::empty());
                assert(before.remove_keys(Set::<int>::empty()) =~= before);
            }
            proof {
                lemma_ranges_take_step(ranges@, k as int);
                assert(self.delivery_attempts@ =~= old(self).delivery_attempts@.remove_keys(
                    ranges_set(ranges@.take(k + 1)),
                ));
            }
            k += 1;
        }
    }

    /// The subscriber did not get these messages: they go back to the queue
    /// and each counts one more failed delivery.
    pub fn confirm_non_delivered(&mut self, ids: &QueueWithIntervals)
        requires
            old(self).wf(),
            ids.wf(),
            forall|k: int|
                #![trigger ids@.contains(k)]
                ids@.contains(k) && old(self).delivery_attempts@.contains_key(k) ==> old(self).delivery_attempts@[k] < i32::MAX,
        ensures
            final(self).wf(),
            final(self).queue@ == old(self).queue@.union(ids@),
            final(self).delivery_attempts@ == bumped_all(old(self).delivery_attempts@, ids@),
            final(self).topic_id == old(self).topic_id,
            final(self).queue_id@ == old(self).queue_id@,
            final(self).queue_type == old(self).queue_type,
            final(self).subscribers == old(self).subscribers,
    {
        self.queue.merge_with(ids);
        let ranges = ids.get_snapshot();
        let n = ranges.len();
        let mut k: usize = 0;
        let ghost a0 = old(self).delivery_attempts@;
        proof {
            lemma_ranges_take_ends(ranges@);
            assert(bumped_all(a0, Set::<int>::empty()) =~= a0);
        }
        while k < n
            invariant
                n == ranges@.len(),
                k <= n,
                ranges_well_formed(ranges@),
                ranges_set(ranges@) == ids@,
                self.wf(),
                self.queue@ == old(self).queue@.union(ids@),
                self.topic_id == old(self).topic_id,
                self.queue_id@ == old(self).queue_id@,
                self.queue_type == old(self).queue_type,
                self.subscribers == old(self).subscribers,
                forall|k: int|
                    #![trigger ids@.contains(k)]
                    ids@.contains(k) && a0.contains_key(k) ==> a0[k] < i32::MAX,
                self.delivery_attempts@ == bumped_all(a0, ranges_set(ranges@.take(k as int))),
            decreases n - k,
        {
            let r = ranges[k];
            let ghost done = ranges_set(ranges@.take(k as int));
            proof {
                lemma_ranges_take_step(ranges@, k as int);
                // the ranges are disjoint, so none of this range's ids is done yet
                assert forall|x: int| r.from_id <= x <= r.to_id implies !done.contains(x) by {
                    if done.contains(x) {
                        let i = choose|i: int|
                            0 <= i < ranges@.take(k as int).len() && #[trigger] ranges@.take(
                                k as int,
                            )[i].has(x);
                        assert(ranges@[i].to_id + 1 < ranges@[k as int].from_id);
                    }
                }
                assert(ranges@[k as int].from_id <= ranges@[k as int].to_id);
                assert forall|x: int| r.from_id <= x <= r.to_id implies ids@.contains(x) by {
                    assert(ranges@[k as int].has(x));
                }
            }
            let mut id = r.from_id;
            loop
                invariant_except_break
                    self.delivery_attempts@ == bumped_all(
                        a0,
                        done.union(id_range(r.from_id as int, id - 1)),
                    ),
                invariant
                    r.from_id <= id <= r.to_id,
                    r == ranges@[k as int],
                    self.wf(),
                    self.queue@ == old(self).queue@.union(ids@),
                    self.topic_id == old(self).topic_id,
                    self.queue_id@ == old(self).queue_id@,
                    self.queue_type == old(self).queue_type,
                    self.subscribers == old(self).subscribers,
                    forall|x: int| r.from_id <= x <= r.to_id ==> !done.contains(x),
                    forall|x: int| r.from_id <= x <= r.to_id ==> ids@.contains(x),
                    forall|k: int|
                        #![trigger ids@.contains(k)]
                        ids@.contains(k) && a0.contains_key(k) ==> a0[k] < i32::MAX,
                ensures
                    self.wf(),
                    self.queue@ == old(self).queue@.union(ids@),
                    self.topic_id == old(self).topic_id,
                    self.queue_id@ == old(self).queue_id@,
                    self.queue_type == old(self).queue_type,
                    self.subscribers == old(self).subscribers,
                    self.delivery_attempts@ == bumped_all(
                        a0,
                        done.union(id_range(r.from_id as int, r.to_id as int)),
                    ),
                decreases r.to_id - id,
            {
                let ghost before = done.union(id_range(r.from_id as int, id - 1));
                proof {
                    assert(ids@.contains(id as int));
                    assert(!before.contains(id as int));
                }
                self.delivery_attempts.add(id);
                proof {
                    let after = done.union(id_range(r.from_id as int, id as int));
                    assert(after =~= before.insert(id as int));
                    assert(bumped(bumped_all(a0, before), id as int) =~= bumped_all(a0, after));
                }
                if id == r.to_id {
                    break;
                }
                id = id + 1;
            }
            k += 1;
        }
        proof {
            assert(ranges@.take(n as int) =~= ranges@);
        }
    }

    /// Whether `new_queue_type` differs from the queue's type.
    pub fn queue_type_is_about_to_change(&self, new_queue_type: TopicQueueType) -> (r: bool)
        ensures
            r == (self.queue_type != new_queue_type),
    {
        match self.queue_type {
            TopicQueueType::Permanent => match new_queue_type {
                TopicQueueType::Permanent => false,
                TopicQueueType::DeleteOnDisconnect => true,
                TopicQueueType::PermanentWithSingleConnection => true,
            },
            TopicQueueType::DeleteOnDisconnect => match new_queue_type {
                TopicQueueType::Permanent => true,
                TopicQueueType::DeleteOnDisconnect => false,
                TopicQueueType::PermanentWithSingleConnection => true,
            },
            TopicQueueType::PermanentWithSingleConnection => match new_queue_type {
                TopicQueueType::Permanent => true,
                TopicQueueType::DeleteOnDisconnect => true,
                TopicQueueType::PermanentWithSingleConnection => false,
            },
        }
    }

    pub fn is_permanent(&self) -> (r: bool)
        ensures
            r == (self.queue_type != TopicQueueType::DeleteOnDisconnect),
    {
        match &self.queue_type {
            TopicQueueType::Permanent => true,
            TopicQueueType::DeleteOnDisconnect => false,
            TopicQueueType::PermanentWithSingleConnection => true,
        }
    }

    /// Takes out of the queue the messages of one sub page to deliver, at
    /// most about `max_delivery_size` bytes of content (see `compile_plan`).
    pub fn compile_sub_page<'s>(
        &mut self,
        sub_page_id: SubPageId,
        max_delivery_size: usize,
        sub_page: &'s SubPage,
    ) -> (r: CompileSubpageResult<'s>)
        requires
            old(self).wf(),
            sub_page.wf(),
        ensures
            final(self).wf(),
            final(self).delivery_attempts == old(self).delivery_attempts,
            final(self).topic_id == old(self).topic_id,
            final(self).queue_id == old(self).queue_id,
            final(self).queue_type == old(self).queue_type,
            final(self).subscribers == old(self).subscribers,
            ({
                let plan = compile_plan(
                    old(self).queue@,
                    *sub_page,
                    sub_page_id.value as int,
                    max_delivery_size as int,
                    0,
                );
                &&& final(self).queue@ == plan.0
                &&& match r {
                    CompileSubpageResult::OkMessages(v) => !plan.2 && plan.1.len() > 0 && delivered_as(
                        v@,
                        plan.1,
                        *sub_page,
                        old(self).delivery_attempts@,
                    ),
                    CompileSubpageResult::OkWithGcFound(v) => plan.2 && plan.1.len() > 0
                        && delivered_as(v@, plan.1, *sub_page, old(self).delivery_attempts@),
                    CompileSubpageResult::GcFound => plan.2 && plan.1.len() == 0,
                    CompileSubpageResult::Empty => !plan.2 && plan.1.len() == 0,
                }
            }),
    {
        proof {
            self.queue.lemma_finite();
        }
        let ghost page = *sub_page;
        let ghost sid = sub_page_id.value as int;
        let ghost max = max_delivery_size as int;
        let ghost plan = compile_plan(self.queue@, page, sid, max, 0);
        let ghost mut ids: Seq<int> = Seq::empty();
        let mut data_size: u128 = 0;
        let mut result: Vec<(i32, &'s MySbMessageContent)> = Vec::new();
        let mut gced_found = false;
        loop
            invariant_except_break
                ({
                    let cur = compile_plan(self.queue@, page, sid, max, data_size as int);
                    plan == (cur.0, ids + cur.1, cur.2)
                }),
                !gced_found,
            invariant
                self.wf(),
                self.queue@.finite(),
                page == *sub_page,
                sub_page.wf(),
                sid == sub_page_id.value,
                max == max_delivery_size,
                self.delivery_attempts == old(self).delivery_attempts,
                self.topic_id == old(self).topic_id,
                self.queue_id == old(self).queue_id,
                self.queue_type == old(self).queue_type,
                self.subscribers == old(self).subscribers,
                data_size <= max_delivery_size as int + usize::MAX as int,
                delivered_as(result@, ids, page, old(self).delivery_attempts@),
            ensures
                plan == (self.queue@, ids, gced_found),
            decreases self.queue@.len(),
        {
            let peeked = self.queue.peek();
            let message_id = match peeked {
                None => {
                    proof {
                        assert(!(exists|m: int| is_min_of(self.queue@, m)));
                        assert(ids + Seq::<int>::empty() =~= ids);
                    }
                    break ;
                },
                Some(m) => m,
            };
            proof {
                assert(exists|m: int| is_min_of(self.queue@, m));
                let c = choose|m: int| is_min_of(self.queue@, m);
                lemma_min_unique(self.queue@, c, message_id as int);
            }
            if data_size > max_delivery_size as u128 {
                proof {
                    assert(ids + Seq::<int>::empty() =~= ids);
                }
                break ;
            }
            let msg_sub_page_id = SubPageId::from_message_id(message_id);
            if msg_sub_page_id.get_value() != sub_page_id.get_value() {
                proof {
                    assert(ids + Seq::<int>::empty() =~= ids);
                }
                break ;
            }
            match sub_page.get_message(message_id) {
                GetMessageResult::Message(msg) => {
                    let ghost q = self.queue@;
                    let ghost cur = compile_plan(q, page, sid, max, data_size as int);
                    let ghost next = compile_plan(
                        q.remove(message_id as int),
                        page,
                        sid,
                        max,
                        data_size + msg.content.len(),
                    );
                    self.queue.dequeue();
                    data_size = data_size + msg.content.len() as u128;
                    let attempt_no = self.delivery_attempts.get(msg.id);
                    result.push((attempt_no, msg));
                    proof {
                        assert(cur == (next.0, seq![message_id as int] + next.1, next.2));
                        assert(ids + (seq![message_id as int] + next.1) =~= ids.push(
                            message_id as int,
                        ) + next.1);
                        ids = ids.push(message_id as int);
                        assert(self.queue@.len() < q.len());
                    }
                },
                GetMessageResult::Missing => {
                    let ghost q = self.queue@;
                    self.queue.dequeue();
                    proof {
                        assert(self.queue@.len() < q.len());
                    }
                },
                GetMessageResult::NotLoaded => {
                    gced_found = true;
                    proof {
                        assert(ids + Seq::<int>::empty() =~= ids);
                    }
                    break ;
                },
            }
        }
        if result.len() > 0 {
            if gced_found {
                CompileSubpageResult::OkWithGcFound(result)
            } else {
                CompileSubpageResult::OkMessages(result)
            }
        } else {
            if gced_found {
                CompileSubpageResult::GcFound
            } else {
                CompileSubpageResult::Empty
            }
        }
    }
}

/// What `compile_sub_page` hands out it takes from the queue: the ids taken
/// were in the queue and are no longer, they belong to the sub page and its
/// messages, they come in growing order, and each is smaller than every id
/// left in the queue.
pub proof fn lemma_compile_takes_smallest_first(
    q: Set<int>,
    page: SubPage,
    sub_page_id: int,
    max: int,
    size: int,
)
    requires
        q.finite(),
    ensures
        ({
            let plan = compile_plan(q, page, sub_page_id, max, size);
            &&& plan.0.subset_of(q)
            &&& forall|i: int|
                0 <= i < plan.1.len() ==> q.contains(#[trigger] plan.1[i]) && !plan.0.contains(
                    plan.1[i],
                ) && sub_page_of(plan.1[i]) == sub_page_id && ids_of(page.messages()).contains(
                    plan.1[i],
                )
            &&& forall|i: int, j: int|
                #![trigger plan.1[i], plan.1[j]]
                0 <= i < j < plan.1.len() ==> plan.1[i] < plan.1[j]
            &&& forall|i: int, x: int|
                #![trigger plan.1[i], plan.0.contains(x)]
                0 <= i < plan.1.len() && plan.0.contains(x) ==> plan.1[i] < x
        }),
    decreases q.len(),
{
    let plan = compile_plan(q, page, sub_page_id, max, size);
    if size > max || !(exists|m: int| is_min_of(q, m)) {
    } else {
        let m = choose|m: int| is_min_of(q, m);
        if sub_page_of(m) != sub_page_id {
        } else if ids_of(page.messages()).contains(m) {
            let size2 = size + find_message(page.messages(), m).content.len();
            lemma_compile_takes_smallest_first(q.remove(m), page, sub_page_id, max, size2);
            let r = compile_plan(q.remove(m), page, sub_page_id, max, size2);
            assert(plan.1 == seq![m] + r.1);
            assert forall|i: int| 0 <= i < plan.1.len() implies q.contains(#[trigger] plan.1[i])
                && !plan.0.contains(plan.1[i]) && sub_page_of(plan.1[i]) == sub_page_id && ids_of(
                page.messages(),
            ).contains(plan.1[i]) by {
                if i > 0 {
                    assert(plan.1[i] == r.1[i - 1]);
                }
            }
            assert forall|i: int, j: int|
                #![trigger plan.1[i], plan.1[j]]
                0 <= i < j < plan.1.len() implies plan.1[i] < plan.1[j] by {
                assert(plan.1[j] == r.1[j - 1]);
                if i > 0 {
                    assert(plan.1[i] == r.1[i - 1]);
                } else {
                    assert(q.remove(m).contains(r.1[j - 1]));
                    assert(q.contains(r.1[j - 1]));
                }
            }
            assert forall|i: int, x: int|
                #![trigger plan.1[i], plan.0.contains(x)]
                0 <= i < plan.1.len() && plan.0.contains(x) implies plan.1[i] < x by {
                if i > 0 {
                    assert(plan.1[i] == r.1[i - 1]);
                } else {
                    assert(q.remove(m).contains(x));
                    assert(q.contains(x));
                }
            }
        } else if page.collected().contains(m) {
        } else {
            lemma_compile_takes_smallest_first(q.remove(m), page, sub_page_id, max, size);
        }
    }
}

/// After `confirm_delivered`, every delivered message counts no failed
/// delivery and every other one keeps its count.
pub proof fn lemma_confirm_delivered_forgets(attempts: Map<int, i32>, delivered: Set<int>, id: int)
    ensures
        delivered.contains(id) ==> attempt_of(attempts.remove_keys(delivered), id) == 0,
        !delivered.contains(id) ==> attempt_of(attempts.remove_keys(delivered), id) == attempt_of(
            attempts,
            id,
        ),
{
}

/// After `confirm_non_delivered`, each message given counts one more failed
/// delivery (0 when it had none), every other one keeps its count.
pub proof fn lemma_confirm_non_delivered_counts(attempts: Map<int, i32>, ids: Set<int>, id: int)
    ensures
        ids.contains(id) ==> attempt_of(bumped_all(attempts, ids), id) == if attempts.contains_key(
            id,
        ) {
            (attempts[id] + 1) as i32
        } else {
            0i32
        },
        !ids.contains(id) ==> attempt_of(bumped_all(attempts, ids), id) == attempt_of(attempts, id),
{
}

/// A delivery that fails gives the queue back what `compile_sub_page` took
/// from it: the queue after `confirm_non_delivered` of the taken ids holds
/// them again, and holds nothing the queue did not hold before.
pub proof fn lemma_non_delivered_gives_back(
    q: Set<int>,
    page: SubPage,
    sub_page_id: int,
    max: int,
)
    requires
        q.finite(),
    ensures
        ({
            let plan = compile_plan(q, page, sub_page_id, max, 0);
            let back = plan.0.union(plan.1.to_set());
            &&& plan.1.to_set().subset_of(back)
            &&& plan.0.subset_of(back)
            &&& back.subset_of(q)
        }),
{
    lemma_compile_takes_smallest_first(q, page, sub_page_id, max, 0);
    let plan = compile_plan(q, page, sub_page_id, max, 0);
    assert forall|x: int| plan.1.to_set().contains(x) implies q.contains(x) by {
        let i = choose|i: int| 0 <= i < plan.1.len() && plan.1[i] == x;
        assert(q.contains(plan.1[i]));
    }
}

} // verus!
