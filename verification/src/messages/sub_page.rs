//! A sub page: the messages of one block of consecutive ids, the ones of
//! them that still wait for persistence, and the ones garbage collected.
use std::sync::Arc;
use vstd::prelude::*;

use crate::messages::message::{arc_clone, MySbMessageContent};
use crate::queue_with_intervals::{is_min_of, QueueWithIntervals};
use crate::utils::clock::now_micros;

verus! {

/// How many consecutive message ids one sub page holds.
pub const SUB_PAGE_MESSAGES_AMOUNT: i64 = 1000;

/// Integer division that rounds toward zero, as `/` does on `i64`.
pub open spec fn div_toward_zero(x: int, d: int) -> int {
    if x >= 0 {
        x / d
    } else {
        -((-x) / d)
    }
}

/// The sub page a message id belongs to.
pub open spec fn sub_page_of(message_id: int) -> int {
    div_toward_zero(message_id, SUB_PAGE_MESSAGES_AMOUNT as int)
}

#[derive(Clone, Copy, Debug, PartialEq, Eq, Structural)]
pub struct SubPageId {
    pub value: i64,
}

impl SubPageId {
    pub fn new(value: i64) -> (r: Self)
        ensures
            r.value == value,
    {
        SubPageId { value }
    }

    pub fn from_message_id(message_id: i64) -> (r: Self)
        ensures
            r.value == sub_page_of(message_id as int),
    {
        SubPageId { value: message_id / SUB_PAGE_MESSAGES_AMOUNT }
    }

    pub fn get_value(&self) -> (r: i64)
        ensures
            r == self.value,
    {
        self.value
    }

    pub fn is_my_message_id(&self, message_id: i64) -> (r: bool)
        ensures
            r == (sub_page_of(message_id as int) == self.value),
    {
        message_id / SUB_PAGE_MESSAGES_AMOUNT == self.value
    }
}

/// What a sub page answers for a message id.
pub enum GetMessageResult<'s> {
    /// The message is in memory.
    Message(&'s MySbMessageContent),
    /// The sub page never held it.
    Missing,
    /// It was garbage collected from memory and has to be loaded again.
    NotLoaded,
}

impl<'s> GetMessageResult<'s> {
    pub fn is_garbage_collected(&self) -> (r: bool)
        ensures
            r == (self is NotLoaded),
    {
        match self {
            GetMessageResult::NotLoaded => true,
            _ => false,
        }
    }
}

/// The ids of a sequence of messages.
pub open spec fn ids_of(s: Seq<Arc<MySbMessageContent>>) -> Set<int> {
    Set::new(|x: int| exists|i: int| 0 <= i < s.len() && (#[trigger] s[i]).id == x)
}

/// The message of `s` with the id `id`.
pub open spec fn find_message(s: Seq<Arc<MySbMessageContent>>, id: int) -> Arc<MySbMessageContent> {
    s[choose|i: int| 0 <= i < s.len() && (#[trigger] s[i]).id == id]
}

/// In a sequence sorted by strictly growing ids, the message found for an
/// id is the one at its position.
pub proof fn lemma_find_unique(s: Seq<Arc<MySbMessageContent>>, i: int)
    requires
        0 <= i < s.len(),
        forall|a: int, b: int| #![trigger s[a], s[b]] 0 <= a < b < s.len() ==> s[a].id < s[b].id,
    ensures
        find_message(s, s[i].id as int) == s[i],
        ids_of(s).contains(s[i].id as int),
{
    assert(s[i].id == s[i].id);
    let c = choose|c: int| 0 <= c < s.len() && (#[trigger] s[c]).id == s[i].id;
    if c < i {
        assert(s[c].id < s[i].id);
    } else if c > i {
        assert(s[i].id < s[c].id);
    }
}

/// The messages of `s` whose ids are in `p`, in their order.
pub open spec fn messages_in(s: Seq<Arc<MySbMessageContent>>, p: Set<int>) -> Seq<
    Arc<MySbMessageContent>,
>
    decreases s.len(),
{
    if s.len() == 0 {
        Seq::empty()
    } else {
        let r = messages_in(s.drop_last(), p);
        if p.contains(s.last().id as int) {
            r.push(s.last())
        } else {
            r
        }
    }
}

/// `new` is `old` after garbage collection below `min`: the messages below
/// `min`, in id order up to the first one still waiting for persistence, are
/// gone from memory and count as collected.
pub open spec fn gc_done(old: SubPage, new: SubPage, min: int) -> bool {
    &&& new.wf()
    &&& new.page_id() == old.page_id()
    &&& new.accessed_at() == old.accessed_at()
    &&& new.pending() == old.pending()
    &&& exists|k: int|
        0 <= k <= old.messages().len() && (forall|i: int|
            0 <= i < k ==> (#[trigger] old.messages()[i]).id < min && !old.pending().contains(
                old.messages()[i].id as int,
            )) && (k < old.messages().len() ==> (old.messages()[k].id >= min
            || old.pending().contains(old.messages()[k].id as int))) && new.messages()
            == old.messages().skip(k) && new.collected() == old.collected().union(
            ids_of(old.messages().take(k)),
        )
}

pub struct SubPage {
    id: SubPageId,
    last_accessed: i64,
    messages: Vec<Arc<MySbMessageContent>>,
    to_persist: QueueWithIntervals,
    gced: QueueWithIntervals,
}

impl SubPage {
    /// The messages are sorted by id, all belong to this sub page, the ones
    /// waiting for persistence are among them, and none of them counts as
    /// garbage collected.
    pub closed spec fn wf(&self) -> bool {
        &&& self.to_persist.wf()
        &&& self.gced.wf()
        &&& forall|i: int, j: int|
            #![trigger self.messages@[i], self.messages@[j]]
            0 <= i < j < self.messages@.len() ==> self.messages@[i].id < self.messages@[j].id
        &&& forall|i: int|
            0 <= i < self.messages@.len() ==> sub_page_of(#[trigger] self.messages@[i].id as int)
                == self.id.value
        &&& self.to_persist@.subset_of(ids_of(self.messages@))
        &&& forall|i: int|
            0 <= i < self.messages@.len() ==> !self.gced@.contains(
                #[trigger] self.messages@[i].id as int,
            )
    }

    pub closed spec fn page_id(&self) -> SubPageId {
        self.id
    }

    /// Moment of the last access, in microseconds since the Unix epoch.
    pub closed spec fn accessed_at(&self) -> i64 {
        self.last_accessed
    }

    pub fn get_last_accessed(&self) -> (r: i64)
        ensures
            r == self.accessed_at(),
    {
        self.last_accessed
    }

    /// The messages in memory, sorted by id.
    pub closed spec fn messages(&self) -> Seq<Arc<MySbMessageContent>> {
        self.messages@
    }

    /// Ids of the messages that wait for persistence.
    pub closed spec fn pending(&self) -> Set<int> {
        self.to_persist@
    }

    /// Ids of the messages garbage collected from memory.
    pub closed spec fn collected(&self) -> Set<int> {
        self.gced@
    }

    /// An empty sub page, accessed now.
    pub fn new_as_brand_new(id: SubPageId) -> (r: Self)
        ensures
            r.wf(),
            r.page_id() == id,
            r.messages() == Seq::<Arc<MySbMessageContent>>::empty(),
            r.pending() == Set::<int>::empty(),
            r.collected() == Set::<int>::empty(),
    {
        Self::new_at(id, now_micros())
    }

    /// An empty sub page, accessed at `now`.
    pub fn new_at(id: SubPageId, now: i64) -> (r: Self)
        ensures
            r.wf(),
            r.page_id() == id,
            r.accessed_at() == now,
            r.messages() == Seq::<Arc<MySbMessageContent>>::empty(),
            r.pending() == Set::<int>::empty(),
            r.collected() == Set::<int>::empty(),
    {
        let r = SubPage {
            id,
            last_accessed: now,
            messages: Vec::new(),
            to_persist: QueueWithIntervals::new(),
            gced: QueueWithIntervals::new(),
        };
        proof {
            assert(ids_of(r.messages@) =~= Set::<int>::empty());
        }
        r
    }

    pub fn get_id(&self) -> (r: SubPageId)
        ensures
            r == self.page_id(),
    {
        self.id
    }

    pub fn update_last_accessed(&mut self, now: i64)
        ensures
            final(self).accessed_at() == now,
            final(self).page_id() == old(self).page_id(),
            final(self).messages() == old(self).messages(),
            final(self).pending() == old(self).pending(),
            final(self).collected() == old(self).collected(),
            final(self).wf() == old(self).wf(),
    {
        self.last_accessed = now;
    }

    pub fn is_empty(&self) -> (r: bool)
        ensures
            r == (self.messages().len() == 0),
    {
        self.messages.len() == 0
    }

    /// Index of the first message whose id is not below `id`.
    fn lower_bound(&self, id: i64) -> (k: usize)
        requires
            self.wf(),
        ensures
            k <= self.messages@.len(),
            forall|i: int| 0 <= i < k ==> (#[trigger] self.messages@[i]).id < id,
            k < self.messages@.len() ==> self.messages@[k as int].id >= id,
    {
        let n = self.messages.len();
        let mut k: usize = 0;
        while k < n && self.messages[k].id < id
            invariant
                k <= n,
                n == self.messages@.len(),
                forall|i: int| 0 <= i < k ==> (#[trigger] self.messages@[i]).id < id,
            decreases n - k,
        {
            k += 1;
        }
        k
    }

    /// The message with that id, or why there is none.
    pub fn get_message(&self, message_id: i64) -> (r: GetMessageResult<'_>)
        requires
            self.wf(),
        ensures
            match r {
                GetMessageResult::Message(m) => ids_of(self.messages()).contains(message_id as int)
                    && *m == *find_message(self.messages(), message_id as int),
                GetMessageResult::NotLoaded => !ids_of(self.messages()).contains(message_id as int)
                    && self.collected().contains(message_id as int),
                GetMessageResult::Missing => !ids_of(self.messages()).contains(message_id as int)
                    && !self.collected().contains(message_id as int),
            },
    {
        let k = self.lower_bound(message_id);
        if k < self.messages.len() && self.messages[k].id == message_id {
            let m: &MySbMessageContent = &self.messages[k];
            assert(ids_of(self.messages@).contains(message_id as int)) by {
                assert(self.messages@[k as int].id == message_id);
            }
            proof {
                let c = choose|i: int|
                    0 <= i < self.messages@.len() && (#[trigger] self.messages@[i]).id == message_id;
                if c < k {
                    assert(self.messages@[c].id < self.messages@[k as int].id);
                } else if c > k {
                    assert(self.messages@[k as int].id < self.messages@[c].id);
                }
            }
            return GetMessageResult::Message(m);
        }
        assert(!ids_of(self.messages@).contains(message_id as int)) by {
            if ids_of(self.messages@).contains(message_id as int) {
                let i = choose|i: int|
                    0 <= i < self.messages@.len() && (#[trigger] self.messages@[i]).id
                        == message_id;
                if i < k {
                } else if i > k {
                    assert(self.messages@[k as int].id < self.messages@[i].id);
                }
            }
        }
        if self.gced.contains(message_id) {
            GetMessageResult::NotLoaded
        } else {
            GetMessageResult::Missing
        }
    }

    /// Puts a message in; one whose id belongs to another sub page is
    /// skipped. With `persist` it also waits for persistence.
    pub fn add_message(&mut self, msg: MySbMessageContent, persist: bool)
        requires
            old(self).wf(),
        ensures
            final(self).wf(),
            final(self).page_id() == old(self).page_id(),
            final(self).accessed_at() == old(self).accessed_at(),
            sub_page_of(msg.id as int) != old(self).page_id().value ==> final(self).messages() == old(self).messages() && final(self).pending() == old(self).pending() && final(self).collected()
                == old(self).collected(),
            sub_page_of(msg.id as int) == old(self).page_id().value ==> {
                &&& exists|k: int|
                    0 <= k <= old(self).messages().len() && (forall|i: int|
                        0 <= i < k ==> (#[trigger] old(self).messages()[i]).id < msg.id) && (k
                        < old(self).messages().len() ==> old(self).messages()[k].id >= msg.id) && (
                    if k < old(self).messages().len() && old(self).messages()[k].id == msg.id {
                        final(self).messages() == old(self).messages().update(k, Arc::new(msg))
                    } else {
                        final(self).messages() == old(self).messages().insert(k, Arc::new(msg))
                    })
                &&& final(self).pending() == (if persist {
                    old(self).pending().insert(msg.id as int)
                } else {
                    old(self).pending()
                })
                &&& final(self).collected() == old(self).collected().remove(msg.id as int)
                &&& ids_of(final(self).messages()) == ids_of(old(self).messages()).insert(msg.id as int)
                &&& *find_message(final(self).messages(), msg.id as int) == msg
                &&& forall|x: int|
                    x != msg.id && #[trigger] ids_of(old(self).messages()).contains(x) ==> find_message(
                        final(self).messages(),
                        x,
                    ) == find_message(old(self).messages(), x)
            },
    {
        if !self.id.is_my_message_id(msg.id) {
            return;
        }
        let id = msg.id;
        let ghost s = self.messages@;
        let k = self.lower_bound(id);
        let ghost msg_spec = msg;
        let item = Arc::new(msg);
        if k < self.messages.len() && self.messages[k].id == id {
            self.messages.set(k, item);
        } else {
            self.messages.insert(k, item);
        }
        let ghost t = self.messages@;
        proof {
            assert forall|i: int, j: int|
                #![trigger t[i], t[j]]
                0 <= i < j < t.len() implies t[i].id < t[j].id by {
                if t.len() == s.len() {
                    if i != k && j != k {
                        assert(s[i].id < s[j].id);
                    } else if i == k {
                        assert(s[i].id < s[j].id);
                    } else {
                        assert(s[i].id < s[j].id);
                    }
                } else {
                    if j < k {
                        assert(s[i].id < s[j].id);
                    } else if i > k {
                        assert(s[i - 1].id < s[j - 1].id);
                    } else if i == k {
                        assert(t[j] == s[j - 1]);
                        if j - 1 > k {
                            assert(s[k as int].id < s[j - 1].id);
                        }
                    } else if j == k {
                    } else {
                        assert(t[i] == s[i] && t[j] == s[j - 1]);
                    }
                }
            }
            assert forall|i: int| 0 <= i < t.len() implies sub_page_of(#[trigger] t[i].id as int)
                == self.id.value by {
                if t.len() == s.len() {
                    if i != k {
                        assert(t[i] == s[i]);
                    }
                } else if i < k {
                    assert(t[i] == s[i]);
                } else if i > k {
                    assert(t[i] == s[i - 1]);
                }
            }
            assert forall|x: int| ids_of(s).contains(x) implies ids_of(t).contains(x) by {
                let i = choose|i: int| 0 <= i < s.len() && (#[trigger] s[i]).id == x;
                if t.len() == s.len() {
                    if i == k {
                        assert(t[i].id == x);
                    } else {
                        assert(t[i] == s[i]);
                    }
                } else if i < k {
                    assert(t[i] == s[i]);
                } else {
                    assert(t[i + 1] == s[i]);
                }
            }
            assert(ids_of(t).contains(id as int)) by {
                assert(t[k as int].id == id);
            }
        }
        self.gced.remove(id);
        if persist {
            self.to_persist.enqueue(id);
        }
        proof {
            assert forall|i: int| 0 <= i < t.len() implies !self.gced@.contains(
                #[trigger] t[i].id as int,
            ) by {
                if t[i].id != id {
                    if t.len() == s.len() {
                        assert(t[i] == s[i]);
                    } else if i < k {
                        assert(t[i] == s[i]);
                    } else if i > k {
                        assert(t[i] == s[i - 1]);
                    }
                }
            }
            assert(self.to_persist@.subset_of(ids_of(t)));
            if t.len() == s.len() {
                assert(old(self).messages().update(k as int, t[k as int]) =~= t);
            } else {
                assert(old(self).messages().insert(k as int, t[k as int]) =~= t);
            }
            assert(0 <= k <= s.len() && (forall|i: int| 0 <= i < k ==> (#[trigger] s[i]).id < id));
            assert(ids_of(t) =~= ids_of(s).insert(id as int)) by {
                assert forall|x: int| ids_of(t).contains(x) implies ids_of(s).insert(id as int).contains(x) by {
                    let i = choose|i: int| 0 <= i < t.len() && (#[trigger] t[i]).id == x;
                    if x != id {
                        if t.len() == s.len() {
                            assert(i != k);
                            assert(t[i] == s[i]);
                        } else if i < k {
                            assert(t[i] == s[i]);
                        } else {
                            assert(i != k);
                            assert(t[i] == s[i - 1]);
                        }
                    }
                }
            }
            lemma_find_unique(t, k as int);
            assert forall|x: int|
                x != id && #[trigger] ids_of(s).contains(x) implies find_message(t, x) == find_message(
                    s,
                    x,
                ) by {
                let j = choose|j: int| 0 <= j < s.len() && (#[trigger] s[j]).id == x;
                lemma_find_unique(s, j);
                let jj = if t.len() == s.len() || j < k { j } else { j + 1 };
                assert(t[jj] == s[j]);
                lemma_find_unique(t, jj);
            }
        }
    }

    /// Messages that wait for persistence, in id order; `None` when there
    /// are none.
    pub fn get_messages_to_persist(&self) -> (r: Option<Vec<Arc<MySbMessageContent>>>)
        requires
            self.wf(),
        ensures
            match r {
                Some(v) => v@ == messages_in(self.messages(), self.pending()) && v@.len() > 0,
                None => messages_in(self.messages(), self.pending()).len() == 0,
            },
    {
        let n = self.messages.len();
        let mut result: Vec<Arc<MySbMessageContent>> = Vec::new();
        let mut k: usize = 0;
        while k < n
            invariant
                n == self.messages@.len(),
                k <= n,
                self.wf(),
                result@ == messages_in(self.messages@.take(k as int), self.to_persist@),
            decreases n - k,
        {
            let ghost t1 = self.messages@.take(k + 1);
            assert(t1.drop_last() =~= self.messages@.take(k as int));
            if self.to_persist.contains(self.messages[k].id) {
                result.push(arc_clone(&self.messages[k]));
            }
            k += 1;
        }
        assert(self.messages@.take(n as int) =~= self.messages@);
        if result.len() == 0 {
            None
        } else {
            Some(result)
        }
    }

    /// Adds `(id, messages to persist)` to `result` when there are any.
    pub fn collect_messages_to_persist(
        &self,
        result: &mut Vec<(SubPageId, Vec<Arc<MySbMessageContent>>)>,
    )
        requires
            self.wf(),
        ensures
            messages_in(self.messages(), self.pending()).len() == 0 ==> final(result)@ == old(result)@,
            messages_in(self.messages(), self.pending()).len() > 0 ==> final(result)@.len() == old(result)@.len() + 1 && final(result)@.take(old(result)@.len() as int) == old(result)@
                && final(result)@.last().0 == self.page_id() && final(result)@.last().1@ == messages_in(
                self.messages(),
                self.pending(),
            ),
    {
        if let Some(messages_to_persist) = self.get_messages_to_persist() {
            result.push((self.id, messages_to_persist));
            assert(result@.take(old(result)@.len() as int) =~= old(result)@);
        }
    }

    /// The ids are persisted: they no longer wait for it.
    pub fn mark_messages_as_persisted(&mut self, ids: &QueueWithIntervals)
        requires
            old(self).wf(),
            ids.wf(),
        ensures
            final(self).wf(),
            final(self).page_id() == old(self).page_id(),
            final(self).accessed_at() == old(self).accessed_at(),
            final(self).messages() == old(self).messages(),
            final(self).collected() == old(self).collected(),
            final(self).pending() == old(self).pending().difference(ids@),
    {
        self.to_persist.remove_all(ids);
        proof {
            assert forall|x: int| self.to_persist@.contains(x) implies ids_of(self.messages@).contains(x) by {
                assert(old(self).to_persist@.contains(x));
            }
        }
    }

    /// Drops from memory, in id order, the messages below `min_message_id`;
    /// the sweep stops at the first message that is not below it or still
    /// waits for persistence.
    pub fn gc_messages(&mut self, min_message_id: i64)
        requires
            old(self).wf(),
        ensures
            gc_done(*old(self), *final(self), min_message_id as int),
    {
        let ghost s = self.messages@;
        let n = self.messages.len();
        let mut k: usize = 0;
        while k < n && self.messages[k].id < min_message_id && !self.to_persist.contains(
            self.messages[k].id,
        )
            invariant
                k <= n,
                n == s.len(),
                s == self.messages@,
                self.wf(),
                self.id == old(self).id,
                self.last_accessed == old(self).last_accessed,
                self.to_persist@ == old(self).to_persist@,
                self.gced@ == old(self).gced@,
                forall|i: int|
                    0 <= i < k ==> (#[trigger] s[i]).id < min_message_id
                        && !self.to_persist@.contains(s[i].id as int),
            decreases n - k,
        {
            k += 1;
        }
        assert(k < n ==> (s[k as int].id >= min_message_id || old(self).to_persist@.contains(
            s[k as int].id as int,
        )));
        // keep the messages from `k` on
        let mut rest: Vec<Arc<MySbMessageContent>> = Vec::new();
        let mut j: usize = k;
        while j < n
            invariant
                k <= j <= n,
                n == s.len(),
                s == self.messages@,
                rest@ == s.subrange(k as int, j as int),
            decreases n - j,
        {
            rest.push(arc_clone(&self.messages[j]));
            proof {
                assert(s.subrange(k as int, j + 1) =~= s.subrange(k as int, j as int).push(
                    s[j as int],
                ));
            }
            j += 1;
        }
        // the swept ids count as garbage collected
        let mut i: usize = 0;
        while i < k
            invariant
                i <= k <= n,
                n == s.len(),
                s == self.messages@,
                self.gced.wf(),
                self.gced@ == old(self).gced@.union(ids_of(s.take(i as int))),
                self.id == old(self).id,
                self.last_accessed == old(self).last_accessed,
                self.to_persist.wf(),
                self.to_persist@ == old(self).to_persist@,
                forall|a: int|
                    0 <= a < k ==> (#[trigger] s[a]).id < min_message_id
                        && !self.to_persist@.contains(s[a].id as int),
            decreases k - i,
        {
            let id = self.messages[i].id;
            self.gced.enqueue(id);
            proof {
                let t = s.take(i as int);
                let t1 = s.take(i + 1);
                assert(ids_of(t1) =~= ids_of(t).insert(id as int)) by {
                    assert forall|x: int| ids_of(t1).contains(x) implies ids_of(t).insert(
                        id as int,
                    ).contains(x) by {
                        let a = choose|a: int| 0 <= a < t1.len() && (#[trigger] t1[a]).id == x;
                        if a < i {
                            assert(t[a].id == x);
                        }
                    }
                    assert forall|x: int| ids_of(t).insert(id as int).contains(x) implies ids_of(
                        t1,
                    ).contains(x) by {
                        if x == id {
                            assert(t1[i as int].id == x);
                        } else {
                            let a = choose|a: int| 0 <= a < t.len() && (#[trigger] t[a]).id == x;
                            assert(t1[a].id == x);
                        }
                    }
                }
            }
            i += 1;
        }
        self.messages = rest;
        proof {
            let t = self.messages@;
            assert(t =~= s.skip(k as int));
            assert forall|i: int, j: int|
                #![trigger t[i], t[j]]
                0 <= i < j < t.len() implies t[i].id < t[j].id by {
                assert(t[i] == s[i + k] && t[j] == s[j + k]);
            }
            assert forall|i: int| 0 <= i < t.len() implies sub_page_of(#[trigger] t[i].id as int)
                == self.id.value by {
                assert(t[i] == s[i + k]);
            }
            assert forall|x: int| self.to_persist@.contains(x) implies ids_of(t).contains(x) by {
                assert(ids_of(s).contains(x));
                let i = choose|i: int| 0 <= i < s.len() && (#[trigger] s[i]).id == x;
                if i < k {
                    assert(!self.to_persist@.contains(s[i].id as int));
                } else {
                    assert(t[i - k] == s[i]);
                }
            }
            assert forall|i: int| 0 <= i < t.len() implies !self.gced@.contains(
                #[trigger] t[i].id as int,
            ) by {
                assert(t[i] == s[i + k]);
                assert(!old(self).gced@.contains(s[i + k].id as int));
                if ids_of(s.take(k as int)).contains(t[i].id as int) {
                    let a = choose|a: int|
                        0 <= a < s.take(k as int).len() && (#[trigger] s.take(k as int)[a]).id
                            == t[i].id;
                    assert(s[a].id < s[i + k].id);
                }
            }
            assert(0 <= k <= s.len() && (forall|i: int|
                0 <= i < k ==> (#[trigger] s[i]).id < min_message_id
                    && !old(self).pending().contains(s[i].id as int)));
            assert(self.messages() == old(self).messages().skip(k as int));
            assert(self.collected() == old(self).collected().union(ids_of(old(self).messages().take(k as int))));
            assert(k < s.len() ==> (s[k as int].id >= min_message_id || old(self).pending().contains(s[k as int].id as int)));
        }
    }

    /// Nothing waits for persistence and the sub page is not among the
    /// active ones.
    pub fn is_ready_to_gc(&self, active_pages: &[SubPageId]) -> (r: bool)
        requires
            self.wf(),
        ensures
            r == (self.pending() == Set::<int>::empty() && forall|i: int|
                0 <= i < active_pages@.len() ==> (#[trigger] active_pages@[i]).value
                    != self.page_id().value),
    {
        if !self.to_persist.is_empty() {
            return false;
        }
        let n = active_pages.len();
        let mut k: usize = 0;
        while k < n
            invariant
                n == active_pages@.len(),
                k <= n,
                forall|i: int| 0 <= i < k ==> (#[trigger] active_pages@[i]).value != self.id.value,
            decreases n - k,
        {
            if active_pages[k].value == self.id.value {
                return false;
            }
            k += 1;
        }
        true
    }

    /// Whether some message waits for persistence.
    pub fn has_messages_to_persist(&self) -> (r: bool)
        requires
            self.wf(),
        ensures
            r == (self.pending() != Set::<int>::empty()),
    {
        !self.to_persist.is_empty()
    }

    /// The smallest id that waits for persistence.
    pub fn get_persisted_min_message_id(&self) -> (r: Option<i64>)
        requires
            self.wf(),
        ensures
            match r {
                None => self.pending() == Set::<int>::empty(),
                Some(m) => is_min_of(self.pending(), m as int),
            },
    {
        self.to_persist.get_min_id()
    }
}

/// Garbage collection keeps every message that waits for persistence or
/// whose id is not below `min`, unchanged.
pub proof fn lemma_gc_keeps_needed(old: SubPage, new: SubPage, min: int, x: int)
    requires
        old.wf(),
        gc_done(old, new, min),
        ids_of(old.messages()).contains(x),
        x >= min || old.pending().contains(x),
    ensures
        ids_of(new.messages()).contains(x),
        find_message(new.messages(), x) == find_message(old.messages(), x),
{
    let s = old.messages();
    let k = choose|k: int|
        0 <= k <= s.len() && (forall|i: int|
            0 <= i < k ==> (#[trigger] s[i]).id < min && !old.pending().contains(s[i].id as int))
            && (k < s.len() ==> (s[k].id >= min || old.pending().contains(s[k].id as int)))
            && new.messages() == s.skip(k) && new.collected() == old.collected().union(
            ids_of(s.take(k)),
        );
    let j = choose|j: int| 0 <= j < s.len() && (#[trigger] s[j]).id == x;
    if j < k {
        assert(s[j].id < min && !old.pending().contains(s[j].id as int));
        assert(false);
    }
    assert(new.messages()[j - k] == s[j]);
    lemma_find_unique(s, j);
    lemma_find_unique(new.messages(), j - k);
}

/// Every message garbage collection drops was below `min`, did not wait for
/// persistence, and now counts as collected.
pub proof fn lemma_gc_drops_only_collected(old: SubPage, new: SubPage, min: int, x: int)
    requires
        old.wf(),
        gc_done(old, new, min),
        ids_of(old.messages()).contains(x),
        !ids_of(new.messages()).contains(x),
    ensures
        x < min,
        !old.pending().contains(x),
        new.collected().contains(x),
{
    let s = old.messages();
    let k = choose|k: int|
        0 <= k <= s.len() && (forall|i: int|
            0 <= i < k ==> (#[trigger] s[i]).id < min && !old.pending().contains(s[i].id as int))
            && (k < s.len() ==> (s[k].id >= min || old.pending().contains(s[k].id as int)))
            && new.messages() == s.skip(k) && new.collected() == old.collected().union(
            ids_of(s.take(k)),
        );
    let j = choose|j: int| 0 <= j < s.len() && (#[trigger] s[j]).id == x;
    if j >= k {
        assert(new.messages()[j - k] == s[j]);
        assert(false);
    }
    assert(s[j].id < min && !old.pending().contains(s[j].id as int));
    assert(s.take(k)[j] == s[j]);
}

/// Every id of `p` that some message of `s` carries is the id of one of the
/// messages `messages_in(s, p)` gives.
proof fn lemma_messages_in_covers(s: Seq<Arc<MySbMessageContent>>, p: Set<int>, x: int)
    requires
        p.contains(x),
        ids_of(s).contains(x),
    ensures
        exists|i: int|
            0 <= i < messages_in(s, p).len() && (#[trigger] messages_in(s, p)[i]).id == x,
    decreases s.len(),
{
    let j = choose|j: int| 0 <= j < s.len() && (#[trigger] s[j]).id == x;
    let r = messages_in(s.drop_last(), p);
    if j == s.len() - 1 {
        assert(messages_in(s, p) == r.push(s.last()));
        assert(messages_in(s, p)[r.len() as int].id == x);
    } else {
        assert(s.drop_last()[j] == s[j]);
        assert(s.drop_last()[j].id == x);
        assert(ids_of(s.drop_last()).contains(x));
        lemma_messages_in_covers(s.drop_last(), p, x);
        let i = choose|i: int| 0 <= i < r.len() && (#[trigger] r[i]).id == x;
        if p.contains(s.last().id as int) {
            assert(messages_in(s, p) == r.push(s.last()));
            assert(messages_in(s, p)[i] == r[i]);
            assert(messages_in(s, p)[i].id == x);
        } else {
            assert(messages_in(s, p) == r);
            assert(messages_in(s, p)[i].id == x);
        }
    }
}

/// Persisting the ids of what `get_messages_to_persist` handed out leaves
/// nothing of the sub page waiting for persistence.
pub proof fn lemma_persisting_all_clears_pending(page: SubPage, ids: Set<int>)
    requires
        page.wf(),
        forall|i: int|
            0 <= i < messages_in(page.messages(), page.pending()).len() ==> ids.contains(
                #[trigger] messages_in(page.messages(), page.pending())[i].id as int,
            ),
    ensures
        page.pending().difference(ids) == Set::<int>::empty(),
{
    assert forall|x: int| page.pending().contains(x) implies ids.contains(x) by {
        assert(ids_of(page.messages()).contains(x));
        lemma_messages_in_covers(page.messages(), page.pending(), x);
    }
    assert(page.pending().difference(ids) =~= Set::<int>::empty());
}

} // verus!
