//! The state of one topic: its message counter, queues, sub pages in memory
//! and recent publishers.
use std::sync::Arc;
use vstd::prelude::*;

use crate::messages::active_sub_pages::ActiveSubPages;
use crate::messages::message::{MessageToPublish, MySbMessageContent};
use crate::messages::pages_list::{
    all_pending, has_page, marked_persisted, page_holds, page_index, page_message, page_pending,
    persist_plan, MessagesPageList,
};
use crate::messages::sub_page::{gc_done, sub_page_of, GetMessageResult, SubPage, SubPageId};
use crate::queue_with_intervals::{id_range, is_min_of, QueueWithIntervals};
use crate::queues::queue::{TopicQueue, TopicQueueType};
use crate::queues::queues_list::{
    named_removals, no_subscriber_queues, without_named, TopicQueuesList,
};
use crate::sessions::session_id::SessionId;
use crate::topics::topic_publishers::{has_publisher, TopicPublishers};
use crate::utils::clock::now_micros;
use crate::utils::min_message_id::{min_opt, MinMessageIdCalculator};

verus! {

/// Seconds a publisher shows as active after it published.
pub const BADGE_HIGHLIGHT_TIME_OUT: u8 = 2;

/// `new` is `old` after `add(id, value)`.
pub open spec fn publisher_set(
    old: Seq<(SessionId, u8)>,
    id: i64,
    value: u8,
    new: Seq<(SessionId, u8)>,
) -> bool {
    &&& has_publisher(old, id) ==> exists|i: int|
        0 <= i < old.len() && old[i].0.value == id && new == old.update(i, (old[i].0, value))
    &&& !has_publisher(old, id) ==> new == old.push((SessionId { value: id }, value))
}

/// `new` is the queue `old` with the ids `ids` added and the rest as it was.
pub open spec fn queue_got(old: TopicQueue, new: TopicQueue, ids: Set<int>) -> bool {
    &&& new.wf()
    &&& new.queue@ == old.queue@.union(ids)
    &&& new.delivery_attempts@ == old.delivery_attempts@
    &&& new.topic_id == old.topic_id
    &&& new.queue_id@ == old.queue_id@
    &&& new.queue_type == old.queue_type
    &&& new.subscribers == old.subscribers
}

/// The ids a queue still needs: those it holds and the smallest of those
/// handed to its subscribers and not yet confirmed.
pub open spec fn queue_needs(q: TopicQueue, x: int) -> bool {
    q.queue@.contains(x) || q.subscribers.min_on_delivery == Some(x as i64) && i64::MIN <= x
        <= i64::MAX
}

/// The message ids the topic still needs: the next id to give out, every id
/// waiting for persistence, and what each queue needs.
pub open spec fn needed_ids(message_id: i64, pending: Set<int>, queues: Seq<TopicQueue>) -> Set<int> {
    Set::new(
        |x: int|
            x == message_id || pending.contains(x) || exists|i: int|
                0 <= i < queues.len() && queue_needs(#[trigger] queues[i], x),
    )
}

/// The message `id` is in memory with the content and headers of `msg`,
/// published at `now`, and waits for persistence exactly when `persist`
/// says so.
pub open spec fn published_as(
    pages: Seq<SubPage>,
    id: int,
    msg: MessageToPublish,
    now: i64,
    persist: bool,
) -> bool {
    &&& page_holds(pages, id)
    &&& page_message(pages, id).id == id
    &&& page_message(pages, id).content == msg.content
    &&& page_message(pages, id).headers == msg.headers
    &&& page_message(pages, id).time == now
    &&& page_pending(pages, id) == persist
}

/// The message `x` is in `new` exactly when it is in `old`, the same, and
/// waiting for persistence exactly when it was.
pub open spec fn kept_message(old: Seq<SubPage>, new: Seq<SubPage>, x: int) -> bool {
    &&& page_holds(new, x) == page_holds(old, x)
    &&& page_holds(old, x) ==> page_message(new, x) == page_message(old, x)
    &&& page_pending(new, x) == page_pending(old, x)
}

/// The smallest element of a set that has one.
pub open spec fn set_min(s: Set<int>) -> int {
    choose|m: int| is_min_of(s, m)
}

/// The sub pages garbage collection must keep: the one of the next id, the
/// one of the smallest id waiting for persistence, and the one of the
/// smallest id of each queue.
pub open spec fn active_pages_of(message_id: i64, pending: Set<int>, queues: Seq<TopicQueue>) -> Set<
    int,
> {
    Set::new(
        |v: int|
            v == sub_page_of(message_id as int) || (pending != Set::<int>::empty() && v
                == sub_page_of(set_min(pending))) || exists|i: int|
                0 <= i < queues.len() && (#[trigger] queues[i]).queue@ != Set::<int>::empty() && v
                    == sub_page_of(set_min(queues[i].queue@)),
    )
}

/// The values of a list of sub page ids.
pub open spec fn page_values(s: Seq<SubPageId>) -> Set<int> {
    Set::new(|v: int| exists|i: int| 0 <= i < s.len() && (#[trigger] s[i]).value == v)
}

/// `new` is `old` after publishing `msgs` for the session `session_id` at
/// the time `now` (see `TopicInner::publish_messages_at`).
pub open spec fn publish_done(
    old: TopicInner,
    new: TopicInner,
    session_id: i64,
    msgs: Seq<MessageToPublish>,
    now: i64,
) -> bool {
    &&& new.wf()
    &&& new.message_id == old.message_id + msgs.len()
    &&& new.topic_id == old.topic_id
    &&& new.persist == old.persist
    &&& new.deleted == old.deleted
    &&& publisher_set(old.publishers@, session_id, BADGE_HIGHLIGHT_TIME_OUT, new.publishers@)
    &&& new.queues.snapshot() == old.queues.snapshot()
    &&& new.queues.queues().len() == old.queues.queues().len()
    &&& forall|i: int|
        0 <= i < old.queues.queues().len() ==> queue_got(
            old.queues.queues()[i],
            #[trigger] new.queues.queues()[i],
            id_range(old.message_id as int, old.message_id + msgs.len() - 1),
        )
    &&& forall|k: int|
        0 <= k < msgs.len() ==> published_as(
            new.pages.pages(),
            old.message_id + k,
            #[trigger] msgs[k],
            now,
            old.persist,
        )
    &&& forall|x: int|
        i64::MIN <= x <= i64::MAX && !(old.message_id <= x < old.message_id + msgs.len())
            ==> kept_message(old.pages.pages(), #[trigger] new.pages.pages(), x)
}

/// `r` is what `get_message` answers for `message_id` when the sub pages in
/// memory are `pages`.
pub open spec fn message_answer<'a>(
    pages: Seq<SubPage>,
    message_id: i64,
    r: Option<GetMessageResult<'a>>,
) -> bool {
    let sid = sub_page_of(message_id as int) as i64;
    match r {
        None => !has_page(pages, sid),
        Some(GetMessageResult::Message(m)) => page_holds(pages, message_id as int) && *m
            == *page_message(pages, message_id as int),
        Some(GetMessageResult::NotLoaded) => has_page(pages, sid) && !page_holds(
            pages,
            message_id as int,
        ) && pages[page_index(pages, sid)].collected().contains(message_id as int),
        Some(GetMessageResult::Missing) => has_page(pages, sid) && !page_holds(
            pages,
            message_id as int,
        ) && !pages[page_index(pages, sid)].collected().contains(message_id as int),
    }
}

/// The queue is deleted on disconnect and its last subscriber left more
/// than `timeout` microseconds before `now` (a moment before that counts as
/// no time at all).
pub open spec fn queue_expired(q: TopicQueue, timeout: int, now: int) -> bool {
    &&& q.queue_type == TopicQueueType::DeleteOnDisconnect
    &&& (if now - q.subscribers.last_unsubscribe > 0 {
        now - q.subscribers.last_unsubscribe
    } else {
        0
    }) > timeout
}

/// The names of the queues of `qs` that have expired, in order.
pub open spec fn expired_names(qs: Seq<TopicQueue>, timeout: int, now: int) -> Seq<Seq<char>>
    decreases qs.len(),
{
    if qs.len() == 0 {
        Seq::empty()
    } else {
        let r = expired_names(qs.drop_last(), timeout, now);
        if queue_expired(qs.last(), timeout, now) {
            r.push(qs.last().queue_id@)
        } else {
            r
        }
    }
}

proof fn lemma_expired_names_len(qs: Seq<TopicQueue>, timeout: int, now: int)
    ensures
        expired_names(qs, timeout, now).len() <= qs.len(),
    decreases qs.len(),
{
    if qs.len() > 0 {
        lemma_expired_names_len(qs.drop_last(), timeout, now);
    }
}

proof fn lemma_no_subscriber_queues_len(qs: Seq<TopicQueue>)
    ensures
        no_subscriber_queues(qs).len() <= qs.len(),
    decreases qs.len(),
{
    if qs.len() > 0 {
        lemma_no_subscriber_queues_len(qs.drop_last());
    }
}

proof fn lemma_min_union(a: Set<int>, b: Set<int>, x: int, y: int)
    requires
        is_min_of(a, x),
        is_min_of(b, y),
    ensures
        is_min_of(a.union(b), if y < x { y } else { x }),
{
}

proof fn lemma_set_min(s: Set<int>, m: int)
    requires
        is_min_of(s, m),
    ensures
        set_min(s) == m,
{
    let c = set_min(s);
    assert(is_min_of(s, c));
    assert(c <= m && m <= c);
}

pub struct TopicInner {
    pub topic_id: String,
    pub message_id: i64,
    pub queues: TopicQueuesList,
    pub pages: MessagesPageList,
    pub publishers: TopicPublishers,
    pub persist: bool,
    pub deleted: i64,
}

impl TopicInner {
    /// Besides each part being well formed: only ids already given out wait
    /// for persistence.
    pub open spec fn wf(&self) -> bool {
        &&& self.queues.wf()
        &&& self.pages.wf()
        &&& self.publishers.wf()
        &&& forall|x: int|
            i64::MIN <= x <= i64::MAX && #[trigger] page_pending(self.pages.pages(), x) ==> x
                < self.message_id
    }

    pub fn new(topic_id: String, message_id: i64, persist: bool) -> (r: Self)
        ensures
            r.wf(),
            r.topic_id == topic_id,
            r.message_id == message_id,
            r.persist == persist,
            r.deleted == 0,
            r.queues.queues() == Seq::<TopicQueue>::empty(),
            r.queues.snapshot() == 0,
            r.pages.pages().len() == 0,
            r.publishers@.len() == 0,
    {
        TopicInner {
            topic_id,
            message_id,
            queues: TopicQueuesList::new(),
            pages: MessagesPageList::new(),
            publishers: TopicPublishers::new(),
            persist,
            deleted: 0,
        }
    }

    /// The session shows as a publisher for a while.
    pub fn set_publisher_as_active(&mut self, session_id: SessionId)
        requires
            old(self).wf(),
        ensures
            final(self).wf(),
            publisher_set(
                old(self).publishers@,
                session_id.value,
                BADGE_HIGHLIGHT_TIME_OUT,
                final(self).publishers@,
            ),
            final(self).queues == old(self).queues,
            final(self).pages == old(self).pages,
            final(self).message_id == old(self).message_id,
            final(self).topic_id == old(self).topic_id,
            final(self).persist == old(self).persist,
            final(self).deleted == old(self).deleted,
    {
        self.publishers.add(session_id, BADGE_HIGHLIGHT_TIME_OUT);
    }

    /// Publishes now; see `publish_messages_at`.
    pub fn publish_messages(&mut self, session_id: SessionId, messages: Vec<MessageToPublish>)
        requires
            old(self).wf(),
            old(self).message_id + messages@.len() <= i64::MAX,
        ensures
            final(self).wf(),
            final(self).message_id == old(self).message_id + messages@.len(),
            exists|now: i64|
                publish_done(*old(self), *final(self), session_id.value, messages@, now),
    {
        let now = now_micros();
        let ghost msgs = messages@;
        self.publish_messages_at(session_id, messages, now);
        assert(publish_done(*old(self), *self, session_id.value, msgs, now));
    }

    /// Gives the messages the next ids in order, keeps them in their sub
    /// pages (waiting for persistence when the topic persists), and adds their
    /// ids to every queue.
    pub fn publish_messages_at(
        &mut self,
        session_id: SessionId,
        messages: Vec<MessageToPublish>,
        now: i64,
    )
        requires
            old(self).wf(),
            old(self).message_id + messages@.len() <= i64::MAX,
        ensures
            final(self).wf(),
            final(self).message_id == old(self).message_id + messages@.len(),
            final(self).topic_id == old(self).topic_id,
            final(self).persist == old(self).persist,
            final(self).deleted == old(self).deleted,
            publisher_set(
                old(self).publishers@,
                session_id.value,
                BADGE_HIGHLIGHT_TIME_OUT,
                final(self).publishers@,
            ),
            final(self).queues.snapshot() == old(self).queues.snapshot(),
            final(self).queues.queues().len() == old(self).queues.queues().len(),
            forall|i: int|
                0 <= i < old(self).queues.queues().len() ==> queue_got(
                    old(self).queues.queues()[i],
                    #[trigger] final(self).queues.queues()[i],
                    id_range(
                        old(self).message_id as int,
                        old(self).message_id + messages@.len() - 1,
                    ),
                ),
            forall|k: int|
                0 <= k < messages@.len() ==> published_as(
                    final(self).pages.pages(),
                    old(self).message_id + k,
                    #[trigger] messages@[k],
                    now,
                    old(self).persist,
                ),
            forall|x: int|
                i64::MIN <= x <= i64::MAX && !(old(self).message_id <= x < old(self).message_id
                    + messages@.len()) ==> kept_message(old(self).pages.pages(), #[trigger] final(self).pages.pages(), x),
    {
        self.set_publisher_as_active(session_id);
        let ghost pubs = self.publishers;
        let ghost m0 = self.message_id;
        let ghost msgs = messages@;
        let ghost pages0 = self.pages.pages();
        let n = messages.len();
        let mut remaining = messages;
        let mut ids = QueueWithIntervals::new();
        let mut k: usize = 0;
        while k < n
            invariant
                k <= n,
                n == msgs.len(),
                remaining@ == msgs.skip(k as int),
                m0 + n <= i64::MAX,
                self.message_id == m0 + k,
                self.pages.wf(),
                ids.wf(),
                ids@ == id_range(m0 as int, m0 + k - 1),
                self.queues == old(self).queues,
                self.publishers == pubs,
                self.topic_id == old(self).topic_id,
                self.persist == old(self).persist,
                self.deleted == old(self).deleted,
                forall|j: int|
                    0 <= j < k ==> {
                        let id = m0 + j;
                        let m = page_message(self.pages.pages(), id);
                        &&& #[trigger] page_holds(self.pages.pages(), m0 + j)
                        &&& m.id == id
                        &&& m.content == msgs[j].content
                        &&& m.headers == msgs[j].headers
                        &&& m.time == now
                        &&& page_pending(self.pages.pages(), id) == self.persist
                    },
                forall|x: int|
                    i64::MIN <= x <= i64::MAX && !(m0 <= x < m0 + k) ==> (#[trigger] page_holds(
                        self.pages.pages(),
                        x,
                    ) == page_holds(pages0, x)) && (page_holds(pages0, x) ==> page_message(
                        self.pages.pages(),
                        x,
                    ) == page_message(pages0, x)) && page_pending(self.pages.pages(), x)
                        == page_pending(pages0, x),
                forall|x: int|
                    i64::MIN <= x <= i64::MAX && #[trigger] page_pending(pages0, x) ==> x < m0,
            decreases n - k,
        {
            let msg = remaining.remove(0);
            let id = self.message_id;
            let message = MySbMessageContent::new(id, msg.content, msg.headers, now);
            let ghost m = message;
            ids.enqueue(id);
            let ghost before = self.pages.pages();
            self.pages.add_message(message, self.persist, now);
            self.message_id = self.message_id + 1;
            proof {
                assert(msg == msgs[k as int]);
                assert(remaining@ =~= msgs.skip(k + 1));
                assert(id_range(m0 as int, m0 + k - 1).insert(id as int) =~= id_range(
                    m0 as int,
                    m0 + k,
                ));
                let after = self.pages.pages();
                assert forall|j: int| 0 <= j < k + 1 implies {
                    let id2 = m0 + j;
                    let m2 = page_message(after, id2);
                    &&& #[trigger] page_holds(after, m0 + j)
                    &&& m2.id == id2
                    &&& m2.content == msgs[j].content
                    &&& m2.headers == msgs[j].headers
                    &&& m2.time == now
                    &&& page_pending(after, id2) == self.persist
                } by {
                    if j < k {
                        assert(page_holds(before, m0 + j));
                        assert(page_holds(after, m0 + j) == page_holds(before, m0 + j));
                        assert(page_message(after, m0 + j) == page_message(before, m0 + j));
                        assert(page_pending(before, m0 + j) == self.persist);
                        assert(page_pending(after, m0 + j) == page_pending(before, m0 + j));
                    } else {
                        assert(page_holds(before, id as int) == page_holds(pages0, id as int));
                        assert(page_pending(before, id as int) == page_pending(pages0, id as int));
                        assert(!page_pending(pages0, id as int));
                    }
                }
                assert forall|x: int|
                    i64::MIN <= x <= i64::MAX && !(m0 <= x < m0 + k + 1) implies (
                    #[trigger] page_holds(after, x) == page_holds(pages0, x)) && (page_holds(
                        pages0,
                        x,
                    ) ==> page_message(after, x) == page_message(pages0, x)) && page_pending(after, x)
                        == page_pending(pages0, x) by {
                    assert(page_holds(after, x) == page_holds(before, x));
                    assert(page_holds(before, x) == page_holds(pages0, x));
                    assert(page_pending(after, x) == page_pending(before, x));
                    if page_holds(pages0, x) {
                        assert(page_message(after, x) == page_message(before, x));
                    }
                }
            }
            k += 1;
            proof {
                assert forall|j: int| 0 <= j < k implies {
                    let id = m0 + j;
                    let m = page_message(self.pages.pages(), id);
                    &&& #[trigger] page_holds(self.pages.pages(), m0 + j)
                    &&& m.id == id
                    &&& m.content == msgs[j].content
                    &&& m.headers == msgs[j].headers
                    &&& m.time == now
                    &&& page_pending(self.pages.pages(), id) == self.persist
                } by {
                    assert(page_holds(self.pages.pages(), m0 + j));
                }
            }
        }
        let ghost pages1 = self.pages.pages();
        assert(pages0 == old(self).pages.pages());
        assert(m0 == old(self).message_id);
        let ghost queues0 = self.queues.queues();
        let queues = self.queues.get_all_mut();
        let qn = queues.len();
        let mut i: usize = 0;
        while i < qn
            invariant
                i <= qn,
                qn == queues@.len(),
                qn == queues0.len(),
                ids.wf(),
                forall|j: int| 0 <= j < qn ==> (#[trigger] queues0[j]).wf(),
                forall|j: int| 0 <= j < i ==> queue_got(queues0[j], #[trigger] queues@[j], ids@),
                forall|j: int| i <= j < qn ==> #[trigger] queues@[j] == queues0[j],
            decreases qn - i,
        {
            assert(queues@[i as int] == queues0[i as int]);
            queues[i].enqueue_messages(&ids);
            i += 1;
        }
        proof {
            assert(msgs == messages@);
            assert(self.pages.pages() == pages1);
            assert forall|k: int| 0 <= k < messages@.len() implies published_as(
                self.pages.pages(),
                old(self).message_id + k,
                #[trigger] messages@[k],
                now,
                old(self).persist,
            ) by {
                assert(page_holds(pages1, m0 + k));
            }
            assert forall|x: int|
                i64::MIN <= x <= i64::MAX && !(old(self).message_id <= x < old(self).message_id
                    + messages@.len()) implies kept_message(old(self).pages.pages(), #[trigger] self.pages.pages(), x) by {
                assert(page_holds(pages1, x) == page_holds(pages0, x));
            }
            assert forall|x: int|
                i64::MIN <= x <= i64::MAX && #[trigger] page_pending(self.pages.pages(), x) implies x
                < self.message_id by {
                if !(m0 <= x < m0 + n) {
                    assert(page_holds(pages1, x) == page_holds(pages0, x));
                    assert(page_pending(pages1, x) == page_pending(pages0, x));
                }
            }
            assert forall|j: int| 0 <= j < self.queues.queues().len() implies (
            #[trigger] self.queues.queues()[j]).wf() by {
                assert(queue_got(queues0[j], self.queues.queues()[j], ids@));
            }
        }
    }

    pub fn one_second_tick(&mut self)
        requires
            old(self).wf(),
        ensures
            final(self).wf(),
            final(self).publishers@.len() == old(self).publishers@.len(),
            forall|i: int|
                0 <= i < old(self).publishers@.len() ==> (#[trigger] final(self).publishers@[i]).0
                    == old(self).publishers@[i].0 && final(self).publishers@[i].1
                    == crate::topics::topic_publishers::ticked(old(self).publishers@[i].1),
            final(self).queues == old(self).queues,
            final(self).pages == old(self).pages,
            final(self).message_id == old(self).message_id,
    {
        self.publishers.one_second_tick();
    }

    /// The smallest id the topic still needs (see `needed_ids`); there is
    /// always one, the next id to give out.
    pub fn get_min_message_id(&self) -> (r: Option<i64>)
        requires
            self.wf(),
        ensures
            r is Some,
            is_min_of(
                needed_ids(self.message_id, all_pending(self.pages.pages()), self.queues.queues()),
                r->0 as int,
            ),
    {
        let mut min_message_id = MinMessageIdCalculator::new();
        min_message_id.add(Some(self.message_id));
        let persisted_min = self.pages.get_persisted_min_message_id();
        min_message_id.add(persisted_min);
        let ghost pending = all_pending(self.pages.pages());
        let ghost base = Set::<int>::empty().insert(self.message_id as int).union(pending);
        proof {
            match persisted_min {
                Some(p) => {
                    lemma_min_union(
                        Set::<int>::empty().insert(self.message_id as int),
                        pending,
                        self.message_id as int,
                        p as int,
                    );
                },
                None => {
                    assert(base =~= Set::<int>::empty().insert(self.message_id as int));
                },
            }
        }
        let queues = self.queues.get_all();
        let n = queues.len();
        let mut k: usize = 0;
        while k < n
            invariant
                n == queues@.len(),
                queues@ == self.queues.queues(),
                self.wf(),
                k <= n,
                min_message_id@ is Some,
                is_min_of(
                    base.union(
                        Set::new(
                            |x: int| exists|i: int| 0 <= i < k && queue_needs(#[trigger] queues@[i], x),
                        ),
                    ),
                    min_message_id@->0 as int,
                ),
            decreases n - k,
        {
            assert(queues@[k as int].wf());
            let min_id = queues[k].queue.get_min_id();
            let ghost before = min_message_id@->0;
            min_message_id.add(min_id);
            let ghost middle = min_message_id@->0;
            let on_delivery = queues[k].subscribers.min_on_delivery;
            min_message_id.add(on_delivery);
            proof {
                let a = base.union(
                    Set::new(|x: int| exists|i: int| 0 <= i < k && queue_needs(#[trigger] queues@[i], x)),
                );
                let a1 = base.union(
                    Set::new(
                        |x: int| exists|i: int| 0 <= i < k + 1 && queue_needs(#[trigger] queues@[i], x),
                    ),
                );
                let q = queues@[k as int].queue@;
                let o = Set::new(
                    |x: int| on_delivery == Some(x as i64) && i64::MIN <= x <= i64::MAX,
                );
                assert(a1 =~= a.union(q).union(o)) by {
                    assert forall|x: int| a1.contains(x) implies a.union(q).union(o).contains(x) by {
                        if !base.contains(x) {
                            let i = choose|i: int| 0 <= i < k + 1 && queue_needs(#[trigger] queues@[i], x);
                            if i < k {
                                assert(queue_needs(queues@[i], x));
                            }
                        }
                    }
                    assert forall|x: int| a.union(q).union(o).contains(x) implies a1.contains(x) by {
                        if q.contains(x) || o.contains(x) {
                            assert(queue_needs(queues@[k as int], x));
                        } else if !base.contains(x) {
                            let i = choose|i: int| 0 <= i < k && queue_needs(#[trigger] queues@[i], x);
                            assert(queue_needs(queues@[i], x));
                        }
                    }
                }
                match min_id {
                    Some(y) => {
                        lemma_min_union(a, q, before as int, y as int);
                    },
                    None => {
                        assert(a.union(q) =~= a);
                    },
                }
                match on_delivery {
                    Some(y) => {
                        assert(is_min_of(o, y as int));
                        lemma_min_union(a.union(q), o, middle as int, y as int);
                    },
                    None => {
                        assert(a.union(q).union(o) =~= a.union(q));
                    },
                }
            }
            k += 1;
        }
        proof {
            let all = base.union(
                Set::new(|x: int| exists|i: int| 0 <= i < n && queue_needs(#[trigger] queues@[i], x)),
            );
            assert(all =~= needed_ids(self.message_id, pending, self.queues.queues()));
        }
        min_message_id.get()
    }

    /// The sub pages garbage collection must keep (see `active_pages_of`).
    pub fn get_active_sub_pages(&self) -> (r: ActiveSubPages)
        requires
            self.wf(),
        ensures
            r.wf(),
            page_values(r@) == active_pages_of(
                self.message_id,
                all_pending(self.pages.pages()),
                self.queues.queues(),
            ),
            exists|i: int| 0 <= i < r@.len() && r@[i].value == sub_page_of(self.message_id as int),
            forall|m: int|
                #[trigger] is_min_of(all_pending(self.pages.pages()), m) ==> exists|i: int|
                    0 <= i < r@.len() && r@[i].value == sub_page_of(m),
            forall|q: int, m: int|
                0 <= q < self.queues.queues().len() && #[trigger] is_min_of(
                    self.queues.queues()[q].queue@,
                    m,
                ) ==> exists|i: int| 0 <= i < r@.len() && r@[i].value == sub_page_of(m),
    {
        let mut result = ActiveSubPages::new();
        let sub_page_id = SubPageId::from_message_id(self.message_id);
        result.add_if_not_exists(sub_page_id);
        let ghost pending = all_pending(self.pages.pages());
        let persisted_min = self.pages.get_persisted_min_message_id();
        let ghost r1 = result@;
        assert(r1.len() == 1 && r1[0].value == sub_page_of(self.message_id as int));
        if let Some(message_id) = persisted_min {
            let sub_page_id = SubPageId::from_message_id(message_id);
            result.add_if_not_exists(sub_page_id);
            proof {
                lemma_set_min(pending, message_id as int);
                assert(pending != Set::<int>::empty()) by {
                    assert(pending.contains(message_id as int));
                }
                if r1[0].value == sub_page_id.value {
                    assert(result@[0].value == sub_page_of(set_min(pending)));
                } else {
                    assert(result@[1].value == sub_page_of(set_min(pending)));
                }
                assert(result@[0].value == sub_page_of(self.message_id as int));
            }
        } else {
            assert(result@ == r1);
        }
        let ghost base = Set::new(
            |v: int|
                v == sub_page_of(self.message_id as int) || (pending != Set::<int>::empty() && v
                    == sub_page_of(set_min(pending))),
        );
        proof {
            assert(page_values(result@) =~= base) by {
                assert forall|v: int| page_values(result@).contains(v) implies base.contains(v) by {
                    let i = choose|i: int| 0 <= i < result@.len() && (#[trigger] result@[i]).value == v;
                }
                assert forall|v: int| base.contains(v) implies page_values(result@).contains(v) by {
                    if v == sub_page_of(self.message_id as int) {
                        assert(result@[0].value == v);
                    } else if result@.len() > 1 && result@[1].value == v {
                    } else {
                        assert(result@[0].value == v);
                    }
                }
            }
        }
        let queues = self.queues.get_all();
        let n = queues.len();
        let mut k: usize = 0;
        while k < n
            invariant
                n == queues@.len(),
                queues@ == self.queues.queues(),
                self.wf(),
                k <= n,
                result.wf(),
                page_values(result@) == base.union(
                    Set::new(
                        |v: int|
                            exists|i: int|
                                0 <= i < k && (#[trigger] queues@[i]).queue@ != Set::<int>::empty()
                                    && v == sub_page_of(set_min(queues@[i].queue@)),
                    ),
                ),
            decreases n - k,
        {
            assert(queues@[k as int].wf());
            let ghost before = result@;
            let min_msg_id = queues[k].get_min_msg_id();
            if let Some(min_msg_id) = min_msg_id {
                let sub_page_id = SubPageId::from_message_id(min_msg_id);
                result.add_if_not_exists(sub_page_id);
                proof {
                    lemma_set_min(queues@[k as int].queue@, min_msg_id as int);
                }
            }
            proof {
                let q = queues@[k as int].queue@;
                let old_set = base.union(
                    Set::new(
                        |v: int|
                            exists|i: int|
                                0 <= i < k && (#[trigger] queues@[i]).queue@ != Set::<int>::empty()
                                    && v == sub_page_of(set_min(queues@[i].queue@)),
                    ),
                );
                let new_set = base.union(
                    Set::new(
                        |v: int|
                            exists|i: int|
                                0 <= i < k + 1 && (#[trigger] queues@[i]).queue@ != Set::<int>::empty()
                                    && v == sub_page_of(set_min(queues@[i].queue@)),
                    ),
                );
                assert(page_values(result@) =~= new_set) by {
                    assert forall|v: int| page_values(result@).contains(v) implies new_set.contains(v) by {
                        let i = choose|i: int| 0 <= i < result@.len() && (#[trigger] result@[i]).value == v;
                        if i < before.len() {
                            assert(page_values(before).contains(v));
                            if !base.contains(v) {
                                let j = choose|j: int|
                                    0 <= j < k && (#[trigger] queues@[j]).queue@ != Set::<int>::empty()
                                        && v == sub_page_of(set_min(queues@[j].queue@));
                                assert(queues@[j].queue@ != Set::<int>::empty());
                            }
                        } else {
                            assert(queues@[k as int].queue@ != Set::<int>::empty());
                        }
                    }
                    assert forall|v: int| new_set.contains(v) implies page_values(result@).contains(v) by {
                        if base.contains(v) {
                            assert(page_values(before).contains(v));
                            let i = choose|i: int| 0 <= i < before.len() && (#[trigger] before[i]).value == v;
                            assert(result@[i] == before[i]);
                        } else {
                            let j = choose|j: int|
                                0 <= j < k + 1 && (#[trigger] queues@[j]).queue@ != Set::<int>::empty()
                                    && v == sub_page_of(set_min(queues@[j].queue@));
                            if j < k {
                                assert(old_set.contains(v));
                                let i = choose|i: int| 0 <= i < before.len() && (#[trigger] before[i]).value == v;
                                assert(result@[i] == before[i]);
                            } else {
                                if exists|i: int| 0 <= i < before.len() && before[i].value == v {
                                    let i = choose|i: int| 0 <= i < before.len() && before[i].value == v;
                                    assert(result@[i] == before[i]);
                                } else {
                                    assert(result@[before.len() as int].value == v);
                                }
                            }
                        }
                    }
                }
            }
            k += 1;
        }
        proof {
            assert(page_values(result@) =~= active_pages_of(self.message_id, pending, self.queues.queues()));
        }
        proof {
            lemma_active_pages_cover(
                self.message_id,
                all_pending(self.pages.pages()),
                self.queues.queues(),
                result@,
            );
        }
        result
    }

    /// The sub page of the next id to give out.
    pub fn get_current_sub_page(&self) -> (r: SubPageId)
        ensures
            r.value == sub_page_of(self.message_id as int),
    {
        SubPageId::from_message_id(self.message_id)
    }

    /// Garbage collection of the messages the topic no longer needs: below
    /// the smallest id it still needs.
    pub fn gc_messages(&mut self)
        requires
            old(self).wf(),
        ensures
            final(self).wf(),
            final(self).queues == old(self).queues,
            final(self).publishers == old(self).publishers,
            final(self).message_id == old(self).message_id,
            final(self).topic_id == old(self).topic_id,
            final(self).persist == old(self).persist,
            final(self).deleted == old(self).deleted,
            final(self).pages.pages().len() == old(self).pages.pages().len(),
            forall|i: int|
                0 <= i < old(self).pages.pages().len() ==> gc_done(
                    old(self).pages.pages()[i],
                    #[trigger] final(self).pages.pages()[i],
                    set_min(
                        needed_ids(
                            old(self).message_id,
                            all_pending(old(self).pages.pages()),
                            old(self).queues.queues(),
                        ),
                    ),
                ),
            forall|x: int|
                i64::MIN <= x <= i64::MAX && needed_ids(
                    old(self).message_id,
                    all_pending(old(self).pages.pages()),
                    old(self).queues.queues(),
                ).contains(x) && page_holds(old(self).pages.pages(), x) ==> #[trigger] page_holds(
                    final(self).pages.pages(),
                    x,
                ) && page_message(final(self).pages.pages(), x) == page_message(
                    old(self).pages.pages(),
                    x,
                ),
    {
        let min = self.get_min_message_id();
        if let Some(min_message_id) = min {
            let ghost needed = needed_ids(
                self.message_id,
                all_pending(self.pages.pages()),
                self.queues.queues(),
            );
            proof {
                lemma_set_min(needed, min_message_id as int);
            }
            self.pages.gc_messages(min_message_id);
            proof {
                assert forall|x: int|
                    i64::MIN <= x <= i64::MAX && #[trigger] page_pending(self.pages.pages(), x)
                        implies x < self.message_id by {
                    crate::messages::pages_list::lemma_pages_gc_keeps_pending(
                        old(self).pages.pages(),
                        self.pages.pages(),
                        min_message_id as int,
                        x,
                    );
                }
                assert forall|x: int|
                    i64::MIN <= x <= i64::MAX && needed.contains(x) && page_holds(
                        old(self).pages.pages(),
                        x,
                    ) implies #[trigger] page_holds(self.pages.pages(), x) && page_message(
                    self.pages.pages(),
                    x,
                ) == page_message(old(self).pages.pages(), x) by {
                    crate::messages::pages_list::lemma_pages_gc_keeps_needed(
                        old(self).pages.pages(),
                        self.pages.pages(),
                        min_message_id as int,
                        x,
                    );
                }
            }
        }
    }

    /// For each sub page with messages waiting for persistence, in order:
    /// its id and those messages.
    pub fn get_messages_to_persist(&self) -> (r: Vec<(SubPageId, Vec<Arc<MySbMessageContent>>)>)
        requires
            self.wf(),
        ensures
            r@.len() == persist_plan(self.pages.pages()).len(),
            forall|i: int|
                0 <= i < r@.len() ==> (#[trigger] r@[i]).0 == persist_plan(self.pages.pages())[i].0
                    && r@[i].1@ == persist_plan(self.pages.pages())[i].1,
    {
        let mut result: Vec<(SubPageId, Vec<Arc<MySbMessageContent>>)> = Vec::new();
        self.pages.get_messages_to_persist(&mut result);
        proof {
            assert forall|i: int| 0 <= i < result@.len() implies (#[trigger] result@[i]).0
                == persist_plan(self.pages.pages())[i].0 && result@[i].1@ == persist_plan(
                self.pages.pages(),
            )[i].1 by {
                assert(result@[0 + i] == result@[i]);
            }
        }
        result
    }

    /// The ids of the sub page are persisted; then garbage collection runs.
    pub fn mark_messages_as_persisted(&mut self, sub_page_id: SubPageId, ids: &QueueWithIntervals)
        requires
            old(self).wf(),
            ids.wf(),
        ensures
            final(self).wf(),
            final(self).queues == old(self).queues,
            final(self).message_id == old(self).message_id,
            exists|mid: Seq<SubPage>|
                #![trigger marked_persisted(old(self).pages.pages(), mid, sub_page_id.value, ids@)]
                marked_persisted(old(self).pages.pages(), mid, sub_page_id.value, ids@) && mid.len()
                    == final(self).pages.pages().len() && forall|i: int|
                    0 <= i < mid.len() ==> gc_done(
                        mid[i],
                        #[trigger] final(self).pages.pages()[i],
                        set_min(needed_ids(old(self).message_id, all_pending(mid), old(self).queues.queues())),
                    ),
    {
        self.pages.mark_messages_as_persisted(sub_page_id, ids);
        let ghost mid = self.pages.pages();
        proof {
            assert forall|x: int|
                i64::MIN <= x <= i64::MAX && #[trigger] page_pending(self.pages.pages(), x)
                    implies x < self.message_id by {
                crate::messages::pages_list::lemma_marked_persisted_pending(
                    old(self).pages.pages(),
                    mid,
                    sub_page_id.value,
                    ids@,
                    x,
                );
            }
        }
        self.gc_messages();
        assert(marked_persisted(old(self).pages.pages(), mid, sub_page_id.value, ids@));
    }

    /// What the sub page of the message answers for it; `None` when that
    /// sub page is not in memory.
    pub fn get_message(&self, message_id: i64) -> (r: Option<GetMessageResult<'_>>)
        requires
            self.wf(),
        ensures
            message_answer(self.pages.pages(), message_id, r),
    {
        let sub_page_id = SubPageId::from_message_id(message_id);
        proof {
            crate::messages::pages_list::lemma_sub_page_in_range(message_id as int);
        }
        match self.pages.get(sub_page_id) {
            Some(sub_page) => {
                assert(sub_page.wf());
                Some(sub_page.get_message(message_id))
            },
            None => None,
        }
    }

    /// Deletes the queues that have no subscriber, are deleted on
    /// disconnect, and whose last subscriber left more than
    /// `queue_gc_timeout_micros` before `now`; answers their names, or
    /// `None` when there is none.
    pub fn gc_queues_with_no_subscribers(
        &mut self,
        queue_gc_timeout_micros: u64,
        now: i64,
    ) -> (r: Option<Vec<String>>)
        requires
            old(self).wf(),
            old(self).queues.snapshot() + old(self).queues.queues().len() <= usize::MAX,
        ensures
            final(self).wf(),
            ({
                let d = expired_names(
                    no_subscriber_queues(old(self).queues.queues()),
                    queue_gc_timeout_micros as int,
                    now as int,
                );
                &&& d.len() == 0 ==> r is None
                &&& d.len() > 0 ==> (r matches Some(v) && v@.len() == d.len() && forall|i: int|
                    0 <= i < v@.len() ==> #[trigger] v@[i]@ == d[i])
                &&& final(self).queues.queues() == without_named(old(self).queues.queues(), d)
                &&& final(self).queues.snapshot() == old(self).queues.snapshot() + named_removals(
                    old(self).queues.queues(),
                    d,
                )
            }),
            r matches Some(v) ==> forall|i: int|
                0 <= i < v@.len() ==> names_expired_queue(
                    old(self).queues.queues(),
                    #[trigger] v@[i]@,
                    queue_gc_timeout_micros as int,
                    now as int,
                ),
            forall|j: int|
                0 <= j < old(self).queues.queues().len() && (#[trigger] old(self).queues.queues()[j]).subscribers.amount == 0 && old(self).queues.queues()[j].queue_type
                    == TopicQueueType::DeleteOnDisconnect && now - old(self).queues.queues()[j].subscribers.last_unsubscribe > queue_gc_timeout_micros ==> (
                r matches Some(v) && names_contain(v@, old(self).queues.queues()[j].queue_id@)),
            forall|x: int|
                0 <= x < old(self).queues.queues().len() && (#[trigger] old(self).queues.queues()[x]).queue_type != TopicQueueType::DeleteOnDisconnect && (forall|y: int|
                    0 <= y < old(self).queues.queues().len() && (#[trigger] old(self).queues.queues()[y]).queue_id@ == old(self).queues.queues()[x].queue_id@ ==> y
                        == x) ==> final(self).queues.queues().contains(old(self).queues.queues()[x]),
            final(self).pages == old(self).pages,
            final(self).publishers == old(self).publishers,
            final(self).message_id == old(self).message_id,
            final(self).topic_id == old(self).topic_id,
            final(self).persist == old(self).persist,
            final(self).deleted == old(self).deleted,
    {
        let ghost q0 = self.queues.queues();
        proof {
            lemma_gc_queue_laws(q0, queue_gc_timeout_micros as int, now as int);
        }
        let ghost s0 = self.queues.snapshot();
        let ghost timeout = queue_gc_timeout_micros as int;
        let ghost nsq = no_subscriber_queues(q0);
        let mut names: Vec<String> = Vec::new();
        match self.queues.get_queues_with_no_subscribers() {
            None => {
                proof {
                    assert(nsq.len() == 0);
                    assert(expired_names(nsq, timeout, now as int).len() == 0);
                }
                return None;
            },
            Some(candidates) => {
                let n = candidates.len();
                let mut k: usize = 0;
                while k < n
                    invariant
                        n == candidates@.len(),
                        n == nsq.len(),
                        k <= n,
                        timeout == queue_gc_timeout_micros as int,
                        forall|i: int| 0 <= i < n ==> *candidates@[i] == #[trigger] nsq[i],
                        names@.len() == expired_names(nsq.take(k as int), timeout, now as int).len(),
                        forall|i: int|
                            0 <= i < names@.len() ==> #[trigger] names@[i]@ == expired_names(
                                nsq.take(k as int),
                                timeout,
                                now as int,
                            )[i],
                    decreases n - k,
                {
                    let ghost t = nsq.take(k as int);
                    let ghost t1 = nsq.take(k + 1);
                    assert(t1.drop_last() =~= t);
                    let q = candidates[k];
                    assert(*q == nsq[k as int]);
                    let elapsed: i128 = now as i128 - q.subscribers.last_unsubscribe as i128;
                    let elapsed: i128 = if elapsed > 0 {
                        elapsed
                    } else {
                        0
                    };
                    let expired = q.queue_type == TopicQueueType::DeleteOnDisconnect && elapsed
                        > queue_gc_timeout_micros as i128;
                    assert(expired == queue_expired(*q, timeout, now as int));
                    assert(t1.last() == *q);
                    if expired {
                        names.push(q.queue_id.to_string());
                    }
                    proof {
                        assert forall|i: int| 0 <= i < names@.len() implies #[trigger] names@[i]@
                            == expired_names(t1, timeout, now as int)[i] by {
                            if i < expired_names(t, timeout, now as int).len() {
                                assert(expired_names(t1, timeout, now as int)[i] == expired_names(
                                    t,
                                    timeout,
                                    now as int,
                                )[i]);
                            }
                        }
                    }
                    k += 1;
                }
                assert(nsq.take(n as int) =~= nsq);
            },
        }
        let ghost d = expired_names(nsq, timeout, now as int);
        let ghost nv = Seq::new(names@.len(), |j: int| names@[j]@);
        assert(nv =~= d);
        if names.len() == 0 {
            proof {
                assert(without_named(q0, d) == q0);
                assert(named_removals(q0, d) == 0);
            }
            return None;
        }
        proof {
            lemma_expired_names_len(nsq, timeout, now as int);
            lemma_no_subscriber_queues_len(q0);
        }
        let m = names.len();
        let mut i: usize = 0;
        while i < m
            invariant
                i <= m,
                m == names@.len(),
                m <= q0.len(),
                nv.len() == m,
                forall|j: int| 0 <= j < m ==> #[trigger] nv[j] == names@[j]@,
                s0 + q0.len() <= usize::MAX,
                self.queues.wf(),
                self.queues.queues() == without_named(q0, nv.take(i as int)),
                self.queues.snapshot() == s0 + named_removals(q0, nv.take(i as int)),
                named_removals(q0, nv.take(i as int)) <= i,
                self.pages == old(self).pages,
                self.publishers == old(self).publishers,
                self.message_id == old(self).message_id,
                self.topic_id == old(self).topic_id,
                self.persist == old(self).persist,
                self.deleted == old(self).deleted,
            decreases m - i,
        {
            let ghost t1 = nv.take(i + 1);
            assert(t1.drop_last() =~= nv.take(i as int));
            assert(t1.last() == names@[i as int]@);
            self.queues.remove(names[i].as_str());
            i += 1;
        }
        assert(nv.take(m as int) =~= nv);
        proof {
            assert forall|j: int|
                0 <= j < q0.len() && (#[trigger] q0[j]).subscribers.amount == 0 && q0[j].queue_type
                    == TopicQueueType::DeleteOnDisconnect && now - q0[j].subscribers.last_unsubscribe
                    > queue_gc_timeout_micros implies names_contain(names@, q0[j].queue_id@) by {
                let i = lemma_gc_names_every_expired_queue(q0, timeout, now as int, j);
                assert(nv[i] == names@[i]@);
                assert(names@[i]@ == q0[j].queue_id@);
            }
        }
        Some(names)
    }
}

/// What was published reads back: `get_message` of the id the `k`-th message
/// was given answers that message, with the content and headers it was
/// published with; it waits for persistence exactly when the topic persists, and
/// every queue of the topic holds its id.
pub proof fn lemma_published_message_reads_back<'a>(
    old: TopicInner,
    new: TopicInner,
    session_id: i64,
    msgs: Seq<MessageToPublish>,
    now: i64,
    k: int,
    r: Option<GetMessageResult<'a>>,
)
    requires
        publish_done(old, new, session_id, msgs, now),
        0 <= k < msgs.len(),
        message_answer(new.pages.pages(), (old.message_id + k) as i64, r),
    ensures
        r matches Some(GetMessageResult::Message(m)) && m.id == old.message_id + k && m.content
            == msgs[k].content && m.headers == msgs[k].headers && m.time == now,
        page_pending(new.pages.pages(), old.message_id + k) == old.persist,
        forall|i: int|
            0 <= i < new.queues.queues().len() ==> (
            #[trigger] new.queues.queues()[i]).queue@.contains(old.message_id + k),
{
    assert(published_as(new.pages.pages(), old.message_id + k, msgs[k], now, old.persist));
    assert forall|i: int| 0 <= i < new.queues.queues().len() implies (
    #[trigger] new.queues.queues()[i]).queue@.contains(old.message_id + k) by {
        assert(queue_got(
            old.queues.queues()[i],
            new.queues.queues()[i],
            id_range(old.message_id as int, old.message_id + msgs.len() - 1),
        ));
    }
}

proof fn lemma_expired_name_source(ls: Seq<TopicQueue>, timeout: int, now: int, i: int) -> (j: int)
    requires
        0 <= i < expired_names(ls, timeout, now).len(),
    ensures
        0 <= j < ls.len(),
        ls[j].queue_id@ == expired_names(ls, timeout, now)[i],
        queue_expired(ls[j], timeout, now),
    decreases ls.len(),
{
    let t = ls.drop_last();
    let d0 = expired_names(t, timeout, now);
    if i < d0.len() {
        let j = lemma_expired_name_source(t, timeout, now, i);
        assert(ls[j] == t[j]);
        j
    } else {
        assert(ls[ls.len() - 1] == ls.last());
        ls.len() - 1
    }
}

proof fn lemma_no_subscriber_queue_source(qs: Seq<TopicQueue>, i: int) -> (j: int)
    requires
        0 <= i < no_subscriber_queues(qs).len(),
    ensures
        0 <= j < qs.len(),
        qs[j] == no_subscriber_queues(qs)[i],
        qs[j].subscribers.amount == 0,
    decreases qs.len(),
{
    let t = qs.drop_last();
    let r0 = no_subscriber_queues(t);
    if i < r0.len() {
        let j = lemma_no_subscriber_queue_source(t, i);
        assert(qs[j] == t[j]);
        j
    } else {
        assert(qs[qs.len() - 1] == qs.last());
        qs.len() - 1
    }
}

/// Every name `gc_queues_with_no_subscribers` answers is the name of a
/// queue of the topic that had no subscriber, is deleted on disconnect, and
/// whose last subscriber left more than the timeout before `now`.
pub proof fn lemma_gc_deletes_only_expired_queues(
    qs: Seq<TopicQueue>,
    timeout: int,
    now: int,
    i: int,
) -> (j: int)
    requires
        timeout >= 0,
        0 <= i < expired_names(no_subscriber_queues(qs), timeout, now).len(),
    ensures
        0 <= j < qs.len(),
        qs[j].queue_id@ == expired_names(no_subscriber_queues(qs), timeout, now)[i],
        qs[j].subscribers.amount == 0,
        qs[j].queue_type == TopicQueueType::DeleteOnDisconnect,
        now - qs[j].subscribers.last_unsubscribe > timeout,
{
    let ls = no_subscriber_queues(qs);
    let k = lemma_expired_name_source(ls, timeout, now, i);
    let j = lemma_no_subscriber_queue_source(qs, k);
    assert(qs[j].queue_id@ == expired_names(ls, timeout, now)[i]);
    j
}

proof fn lemma_no_subscriber_queue_found(qs: Seq<TopicQueue>, j: int) -> (k: int)
    requires
        0 <= j < qs.len(),
        qs[j].subscribers.amount == 0,
    ensures
        0 <= k < no_subscriber_queues(qs).len(),
        no_subscriber_queues(qs)[k] == qs[j],
    decreases qs.len(),
{
    let t = qs.drop_last();
    let r0 = no_subscriber_queues(t);
    if j < t.len() {
        assert(qs[j] == t[j]);
        let k = lemma_no_subscriber_queue_found(t, j);
        if qs.last().subscribers.amount == 0 {
            assert(no_subscriber_queues(qs) == r0.push(qs.last()));
        }
        k
    } else {
        assert(qs[j] == qs.last());
        assert(no_subscriber_queues(qs) == r0.push(qs.last()));
        r0.len() as int
    }
}

proof fn lemma_expired_name_found(ls: Seq<TopicQueue>, timeout: int, now: int, j: int) -> (i: int)
    requires
        0 <= j < ls.len(),
        queue_expired(ls[j], timeout, now),
    ensures
        0 <= i < expired_names(ls, timeout, now).len(),
        expired_names(ls, timeout, now)[i] == ls[j].queue_id@,
    decreases ls.len(),
{
    let t = ls.drop_last();
    let d0 = expired_names(t, timeout, now);
    if j < t.len() {
        assert(ls[j] == t[j]);
        let i = lemma_expired_name_found(t, timeout, now, j);
        if queue_expired(ls.last(), timeout, now) {
            assert(expired_names(ls, timeout, now) == d0.push(ls.last().queue_id@));
        }
        i
    } else {
        assert(ls[j] == ls.last());
        assert(expired_names(ls, timeout, now) == d0.push(ls.last().queue_id@));
        d0.len() as int
    }
}

/// Queue garbage collection names every queue of the topic that has no
/// subscriber, is deleted on disconnect, and whose last subscriber left
/// more than the timeout before `now`.
pub proof fn lemma_gc_names_every_expired_queue(qs: Seq<TopicQueue>, timeout: int, now: int, j: int) -> (i: int)
    requires
        timeout >= 0,
        0 <= j < qs.len(),
        qs[j].subscribers.amount == 0,
        qs[j].queue_type == TopicQueueType::DeleteOnDisconnect,
        now - qs[j].subscribers.last_unsubscribe > timeout,
    ensures
        0 <= i < expired_names(no_subscriber_queues(qs), timeout, now).len(),
        expired_names(no_subscriber_queues(qs), timeout, now)[i] == qs[j].queue_id@,
{
    let k = lemma_no_subscriber_queue_found(qs, j);
    lemma_expired_name_found(no_subscriber_queues(qs), timeout, now, k)
}

/// Removing queues by names none of which is the name of `q` keeps `q`.
proof fn lemma_without_named_keeps(qs: Seq<TopicQueue>, names: Seq<Seq<char>>, q: TopicQueue)
    requires
        qs.contains(q),
        forall|n: int| 0 <= n < names.len() ==> #[trigger] names[n] != q.queue_id@,
    ensures
        without_named(qs, names).contains(q),
    decreases names.len(),
{
    if names.len() > 0 {
        let n0 = names.drop_last();
        assert forall|n: int| 0 <= n < n0.len() implies #[trigger] n0[n] != q.queue_id@ by {
            assert(n0[n] == names[n]);
        }
        lemma_without_named_keeps(qs, n0, q);
        let s = without_named(qs, n0);
        let key = names.last();
        assert(names[names.len() - 1] == key);
        if crate::queues::queues_list::has_named(s, key) {
            let f = crate::queues::queues_list::first_named(s, key);
            assert(crate::queues::queues_list::is_first_named(s, key, f)) by {
                crate::queues::queues_list::lemma_first_named_exists(s, key);
            }
            let k = choose|k: int| 0 <= k < s.len() && s[k] == q;
            assert(k != f);
            let r = s.remove(f);
            if k < f {
                assert(r[k] == q);
            } else {
                assert(r[k - 1] == q);
            }
        }
    }
}

/// Queue garbage collection keeps a queue that is not deleted on
/// disconnect when no other queue of the topic bears its name.
pub proof fn lemma_gc_keeps_lasting_queues(qs: Seq<TopicQueue>, timeout: int, now: int, x: int)
    requires
        timeout >= 0,
        0 <= x < qs.len(),
        qs[x].queue_type != TopicQueueType::DeleteOnDisconnect,
        forall|y: int| 0 <= y < qs.len() && #[trigger] qs[y].queue_id@ == qs[x].queue_id@ ==> y == x,
    ensures
        without_named(qs, expired_names(no_subscriber_queues(qs), timeout, now)).contains(qs[x]),
{
    let d = expired_names(no_subscriber_queues(qs), timeout, now);
    assert forall|n: int| 0 <= n < d.len() implies #[trigger] d[n] != qs[x].queue_id@ by {
        let j = lemma_gc_deletes_only_expired_queues(qs, timeout, now, n);
        if d[n] == qs[x].queue_id@ {
            assert(qs[j].queue_id@ == qs[x].queue_id@);
            assert(j == x);
        }
    }
    assert(qs[x] == qs[x]);
    lemma_without_named_keeps(qs, d, qs[x]);
}

/// The active sub pages hold the sub page of the next id to give out, the
/// sub page of the smallest id waiting for persistence, and the sub page of
/// the smallest id of each queue.
pub proof fn lemma_active_pages_cover(
    message_id: i64,
    pending: Set<int>,
    queues: Seq<TopicQueue>,
    r: Seq<SubPageId>,
)
    requires
        page_values(r) == active_pages_of(message_id, pending, queues),
    ensures
        exists|i: int| 0 <= i < r.len() && r[i].value == sub_page_of(message_id as int),
        forall|m: int|
            #[trigger] is_min_of(pending, m) ==> exists|i: int|
                0 <= i < r.len() && r[i].value == sub_page_of(m),
        forall|q: int, m: int|
            0 <= q < queues.len() && #[trigger] is_min_of(queues[q].queue@, m) ==> exists|i: int|
                0 <= i < r.len() && r[i].value == sub_page_of(m),
{
    assert(active_pages_of(message_id, pending, queues).contains(sub_page_of(message_id as int)));
    assert(page_values(r).contains(sub_page_of(message_id as int)));
    assert forall|m: int| #[trigger] is_min_of(pending, m) implies exists|i: int|
        0 <= i < r.len() && r[i].value == sub_page_of(m) by {
        lemma_set_min(pending, m);
        assert(pending.contains(m));
        assert(active_pages_of(message_id, pending, queues).contains(sub_page_of(m)));
        assert(page_values(r).contains(sub_page_of(m)));
    }
    assert forall|q: int, m: int|
        0 <= q < queues.len() && #[trigger] is_min_of(queues[q].queue@, m) implies exists|i: int|
        0 <= i < r.len() && r[i].value == sub_page_of(m) by {
        lemma_set_min(queues[q].queue@, m);
        assert(queues[q].queue@.contains(m));
        assert(queues[q].queue@ != Set::<int>::empty());
        assert(active_pages_of(message_id, pending, queues).contains(sub_page_of(m)));
        assert(page_values(r).contains(sub_page_of(m)));
    }
}

/// Some text of `v` is `name`.
pub open spec fn names_contain(v: Seq<String>, name: Seq<char>) -> bool {
    exists|i: int| 0 <= i < v.len() && (#[trigger] v[i])@ == name
}

/// Some queue of `qs` named `name` has no subscriber, is deleted on
/// disconnect, and its last subscriber left more than `timeout` before
/// `now`.
pub open spec fn names_expired_queue(qs: Seq<TopicQueue>, name: Seq<char>, timeout: int, now: int) -> bool {
    exists|j: int|
        0 <= j < qs.len() && (#[trigger] qs[j]).queue_id@ == name && qs[j].subscribers.amount == 0
            && qs[j].queue_type == TopicQueueType::DeleteOnDisconnect && now
            - qs[j].subscribers.last_unsubscribe > timeout
}

/// Every name queue garbage collection answers is the name of a queue
/// without subscriber, deleted on disconnect, whose last subscriber left
/// more than the timeout before `now`.
pub proof fn lemma_gc_names_only_expired_queues(qs: Seq<TopicQueue>, timeout: int, now: int)
    requires
        timeout >= 0,
    ensures
        forall|i: int|
            0 <= i < expired_names(no_subscriber_queues(qs), timeout, now).len()
                ==> names_expired_queue(
                qs,
                #[trigger] expired_names(no_subscriber_queues(qs), timeout, now)[i],
                timeout,
                now,
            ),
{
    assert forall|i: int|
        0 <= i < expired_names(no_subscriber_queues(qs), timeout, now).len()
            implies names_expired_queue(
            qs,
            #[trigger] expired_names(no_subscriber_queues(qs), timeout, now)[i],
            timeout,
            now,
        ) by {
        let j = lemma_gc_deletes_only_expired_queues(qs, timeout, now, i);
        assert(qs[j].queue_id@ == expired_names(no_subscriber_queues(qs), timeout, now)[i]);
    }
}

/// What queue garbage collection answers and keeps: only, and all, the
/// names of queues without subscriber, deleted on disconnect, whose last
/// subscriber left more than the timeout before `now`; and every queue not
/// deleted on disconnect whose name no other queue bears stays.
pub proof fn lemma_gc_queue_laws(qs: Seq<TopicQueue>, timeout: int, now: int)
    requires
        timeout >= 0,
    ensures
        forall|i: int|
            0 <= i < expired_names(no_subscriber_queues(qs), timeout, now).len()
                ==> names_expired_queue(
                qs,
                #[trigger] expired_names(no_subscriber_queues(qs), timeout, now)[i],
                timeout,
                now,
            ),
        forall|j: int|
            0 <= j < qs.len() && (#[trigger] qs[j]).subscribers.amount == 0 && qs[j].queue_type
                == TopicQueueType::DeleteOnDisconnect && now - qs[j].subscribers.last_unsubscribe
                > timeout ==> exists|i: int|
                0 <= i < expired_names(no_subscriber_queues(qs), timeout, now).len()
                    && #[trigger] expired_names(no_subscriber_queues(qs), timeout, now)[i]
                    == qs[j].queue_id@,
        forall|x: int|
            0 <= x < qs.len() && (#[trigger] qs[x]).queue_type != TopicQueueType::DeleteOnDisconnect
                && (forall|y: int|
                0 <= y < qs.len() && (#[trigger] qs[y]).queue_id@ == qs[x].queue_id@ ==> y == x)
                ==> without_named(qs, expired_names(no_subscriber_queues(qs), timeout, now)).contains(
                qs[x],
            ),
{
    let d = expired_names(no_subscriber_queues(qs), timeout, now);
    lemma_gc_names_only_expired_queues(qs, timeout, now);
    assert forall|j: int|
        0 <= j < qs.len() && (#[trigger] qs[j]).subscribers.amount == 0 && qs[j].queue_type
            == TopicQueueType::DeleteOnDisconnect && now - qs[j].subscribers.last_unsubscribe
            > timeout implies exists|i: int| 0 <= i < d.len() && d[i] == qs[j].queue_id@ by {
        let i = lemma_gc_names_every_expired_queue(qs, timeout, now, j);
        assert(d[i] == qs[j].queue_id@);
    }
    assert forall|x: int|
        0 <= x < qs.len() && (#[trigger] qs[x]).queue_type != TopicQueueType::DeleteOnDisconnect && (
        forall|y: int| 0 <= y < qs.len() && (#[trigger] qs[y]).queue_id@ == qs[x].queue_id@ ==> y == x)
            implies without_named(qs, d).contains(qs[x]) by {
        assert forall|y: int| 0 <= y < qs.len() && #[trigger] qs[y].queue_id@ == qs[x].queue_id@ implies y
            == x by {}
        lemma_gc_keeps_lasting_queues(qs, timeout, now, x);
    }
}

} // verus!
