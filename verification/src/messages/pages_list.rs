//! The sub pages of a topic that are in memory.
use std::sync::Arc;
use vstd::prelude::*;

use crate::messages::message::MySbMessageContent;
use crate::messages::sub_page::{find_message, gc_done, ids_of, messages_in, sub_page_of, SubPage, SubPageId};
use crate::queue_with_intervals::{is_min_of, QueueWithIntervals};
use crate::utils::min_message_id::MinMessageIdCalculator;

verus! {

/// `i` is the index of the sub page `id` in `s`.
pub open spec fn is_page_at(s: Seq<SubPage>, id: i64, i: int) -> bool {
    0 <= i < s.len() && s[i].page_id().value == id
}

/// Some sub page of `s` has the id `id`.
pub open spec fn has_page(s: Seq<SubPage>, id: i64) -> bool {
    exists|i: int| is_page_at(s, id, i)
}

/// Index of the sub page `id` in `s`.
pub open spec fn page_index(s: Seq<SubPage>, id: i64) -> int {
    choose|i: int| is_page_at(s, id, i)
}

/// The ids that wait for persistence in any sub page of `s`.
pub open spec fn all_pending(s: Seq<SubPage>) -> Set<int>
    decreases s.len(),
{
    if s.len() == 0 {
        Set::empty()
    } else {
        all_pending(s.drop_last()).union(s.last().pending())
    }
}

/// For each sub page of `s` with messages waiting for persistence, in order:
/// its id and those messages.
pub open spec fn persist_plan(s: Seq<SubPage>) -> Seq<(SubPageId, Seq<Arc<MySbMessageContent>>)>
    decreases s.len(),
{
    if s.len() == 0 {
        Seq::empty()
    } else {
        let r = persist_plan(s.drop_last());
        let m = messages_in(s.last().messages(), s.last().pending());
        if m.len() > 0 {
            r.push((s.last().page_id(), m))
        } else {
            r
        }
    }
}

/// The message `id` is in memory in its sub page.
pub open spec fn page_holds(s: Seq<SubPage>, id: int) -> bool {
    &&& has_page(s, sub_page_of(id) as i64)
    &&& ids_of(s[page_index(s, sub_page_of(id) as i64)].messages()).contains(id)
}

/// The message `id` as its sub page holds it.
pub open spec fn page_message(s: Seq<SubPage>, id: int) -> Arc<MySbMessageContent> {
    find_message(s[page_index(s, sub_page_of(id) as i64)].messages(), id)
}

/// The message `id` waits for persistence in its sub page.
pub open spec fn page_pending(s: Seq<SubPage>, id: int) -> bool {
    &&& has_page(s, sub_page_of(id) as i64)
    &&& s[page_index(s, sub_page_of(id) as i64)].pending().contains(id)
}

/// Sub pages with distinct ids, each well formed.
pub open spec fn pages_wf(s: Seq<SubPage>) -> bool {
    &&& forall|i: int| 0 <= i < s.len() ==> (#[trigger] s[i]).wf()
    &&& forall|i: int, j: int|
        #![trigger s[i], s[j]]
        0 <= i < j < s.len() ==> s[i].page_id().value != s[j].page_id().value
}

/// The sub page of an `i64` id is an `i64`.
pub proof fn lemma_sub_page_in_range(x: int)
    requires
        i64::MIN <= x <= i64::MAX,
    ensures
        i64::MIN <= sub_page_of(x) <= i64::MAX,
        sub_page_of(x) as i64 == sub_page_of(x),
{
    if x >= 0 {
        assert(x / 1000 <= x) by (nonlinear_arith)
            requires
                x >= 0,
        ;
        assert(x / 1000 >= 0) by (nonlinear_arith)
            requires
                x >= 0,
        ;
    } else {
        assert((-x) / 1000 <= -x) by (nonlinear_arith)
            requires
                -x >= 0,
        ;
        assert((-x) / 1000 >= 0) by (nonlinear_arith)
            requires
                -x >= 0,
        ;
    }
}

proof fn lemma_page_index(s: Seq<SubPage>, id: i64, i: int)
    requires
        pages_wf(s),
        is_page_at(s, id, i),
    ensures
        page_index(s, id) == i,
        has_page(s, id),
{
    let c = page_index(s, id);
    assert(is_page_at(s, id, c));
    if c < i {
        assert(s[c].page_id().value != s[i].page_id().value);
    } else if c > i {
        assert(s[i].page_id().value != s[c].page_id().value);
    }
}

/// Changing (or adding) only the sub page at `i` leaves every message of the
/// other sub pages where it was.
proof fn lemma_other_pages(old_s: Seq<SubPage>, new_s: Seq<SubPage>, i: int, sid: i64)
    requires
        pages_wf(old_s),
        pages_wf(new_s),
        new_s.len() == old_s.len() || (new_s.len() == old_s.len() + 1 && i == old_s.len()
            && !has_page(old_s, sid)),
        0 <= i < new_s.len(),
        i < old_s.len() ==> old_s[i].page_id().value == sid,
        new_s[i].page_id().value == sid,
        forall|j: int| 0 <= j < old_s.len() && j != i ==> #[trigger] new_s[j] == old_s[j],
    ensures
        has_page(new_s, sid),
        page_index(new_s, sid) == i,
        i < old_s.len() ==> has_page(old_s, sid) && page_index(old_s, sid) == i,
        forall|x: int|
            i64::MIN <= x <= i64::MAX && sub_page_of(x) != sid ==> (#[trigger] page_holds(new_s, x) == page_holds(old_s, x)) && (
            page_holds(old_s, x) ==> page_message(new_s, x) == page_message(old_s, x)) && (
            page_pending(new_s, x) == page_pending(old_s, x)),
{
    lemma_page_index(new_s, sid, i);
    if i < old_s.len() {
        lemma_page_index(old_s, sid, i);
    }
    assert forall|x: int| i64::MIN <= x <= i64::MAX && sub_page_of(x) != sid implies (#[trigger] page_holds(new_s, x)
        == page_holds(old_s, x)) && (page_holds(old_s, x) ==> page_message(new_s, x) == page_message(
        old_s,
        x,
    )) && (page_pending(new_s, x) == page_pending(old_s, x)) by {
        lemma_sub_page_in_range(x);
        let p = sub_page_of(x) as i64;
        if has_page(old_s, p) {
            let j = page_index(old_s, p);
            assert(is_page_at(old_s, p, j));
            assert(j != i);
            assert(new_s[j] == old_s[j]);
            lemma_page_index(new_s, p, j);
        }
        if has_page(new_s, p) {
            let j = page_index(new_s, p);
            assert(is_page_at(new_s, p, j));
            assert(j != i);
            assert(j < old_s.len());
            assert(new_s[j] == old_s[j]);
            lemma_page_index(old_s, p, j);
        }
    }
}

/// `new` is `old` with the ids `ids` of the sub page `sid` no longer waiting
/// for persistence.
pub open spec fn marked_persisted(old: Seq<SubPage>, new: Seq<SubPage>, sid: i64, ids: Set<int>) -> bool {
    &&& new.len() == old.len()
    &&& !has_page(old, sid) ==> new == old
    &&& has_page(old, sid) ==> ({
        let i = page_index(old, sid);
        &&& forall|j: int| 0 <= j < old.len() && j != i ==> #[trigger] new[j] == old[j]
        &&& new[i].page_id() == old[i].page_id()
        &&& new[i].accessed_at() == old[i].accessed_at()
        &&& new[i].messages() == old[i].messages()
        &&& new[i].collected() == old[i].collected()
        &&& new[i].pending() == old[i].pending().difference(ids)
    })
}

pub struct MessagesPageList {
    sub_pages: Vec<SubPage>,
}

impl MessagesPageList {
    pub closed spec fn pages(&self) -> Seq<SubPage> {
        self.sub_pages@
    }

    /// Every sub page is well formed and none is there twice.
    pub open spec fn wf(&self) -> bool {
        pages_wf(self.pages())
    }

    pub fn new() -> (r: Self)
        ensures
            r.wf(),
            r.pages() == Seq::<SubPage>::empty(),
    {
        MessagesPageList { sub_pages: Vec::new() }
    }

    proof fn lemma_index_unique(&self, id: i64, i: int)
        requires
            self.wf(),
            is_page_at(self.pages(), id, i),
        ensures
            page_index(self.pages(), id) == i,
            has_page(self.pages(), id),
    {
        let c = page_index(self.pages(), id);
        assert(is_page_at(self.pages(), id, c));
        if c < i {
            assert(self.pages()[c].page_id().value != self.pages()[i].page_id().value);
        } else if c > i {
            assert(self.pages()[i].page_id().value != self.pages()[c].page_id().value);
        }
    }

    fn find(&self, sub_page_id: SubPageId) -> (r: Option<usize>)
        requires
            self.wf(),
        ensures
            match r {
                Some(i) => is_page_at(self.pages(), sub_page_id.value, i as int) && page_index(
                    self.pages(),
                    sub_page_id.value,
                ) == i,
                None => !has_page(self.pages(), sub_page_id.value),
            },
    {
        let n = self.sub_pages.len();
        let mut i: usize = 0;
        while i < n
            invariant
                n == self.sub_pages@.len(),
                i <= n,
                self.wf(),
                forall|j: int|
                    0 <= j < i ==> (#[trigger] self.sub_pages@[j]).page_id().value
                        != sub_page_id.value,
            decreases n - i,
        {
            if self.sub_pages[i].get_id().value == sub_page_id.value {
                proof {
                    self.lemma_index_unique(sub_page_id.value, i as int);
                }
                return Some(i);
            }
            i += 1;
        }
        None
    }

    pub fn get(&self, sub_page_id: SubPageId) -> (r: Option<&SubPage>)
        requires
            self.wf(),
        ensures
            match r {
                Some(p) => has_page(self.pages(), sub_page_id.value) && *p == self.pages()[page_index(
                    self.pages(),
                    sub_page_id.value,
                )],
                None => !has_page(self.pages(), sub_page_id.value),
            },
    {
        match self.find(sub_page_id) {
            Some(i) => Some(&self.sub_pages[i]),
            None => None,
        }
    }

    /// The sub page, created empty and accessed at `now` when it is not in
    /// memory.
    pub fn get_or_create_mut(&mut self, sub_page_id: SubPageId, now: i64) -> (r: &mut SubPage)
        requires
            old(self).wf(),
        ensures
            ({
                let created = !has_page(old(self).pages(), sub_page_id.value);
                let i = if created {
                    old(self).pages().len() as int
                } else {
                    page_index(old(self).pages(), sub_page_id.value)
                };
                &&& final(self).pages().len() == old(self).pages().len() + (if created {
                    1int
                } else {
                    0int
                })
                &&& 0 <= i < final(self).pages().len()
                &&& final(self).pages()[i] == *final(r)
                &&& forall|j: int|
                    0 <= j < old(self).pages().len() && j != i ==> #[trigger] final(self).pages()[j]
                        == old(self).pages()[j]
                &&& !created ==> *r == old(self).pages()[i]
                &&& created ==> r.messages().len() == 0 && r.pending() == Set::<int>::empty()
                    && r.collected() == Set::<int>::empty() && r.accessed_at() == now
                &&& r.page_id() == sub_page_id
                &&& r.wf()
            }),
    {
        let idx = match self.find(sub_page_id) {
            Some(i) => {
                assert(self.pages()[i as int].wf());
                i
            },
            None => {
                self.sub_pages.push(SubPage::new_at(sub_page_id, now));
                self.sub_pages.len() - 1
            },
        };
        &mut self.sub_pages[idx]
    }

    /// Puts a published message, accessed at `now`, into its sub page,
    /// which is created when it is not in memory.
    pub fn add_message(&mut self, msg: MySbMessageContent, persist: bool, now: i64)
        requires
            old(self).wf(),
        ensures
            final(self).wf(),
            page_holds(final(self).pages(), msg.id as int),
            *page_message(final(self).pages(), msg.id as int) == msg,
            final(self).pages()[page_index(
                final(self).pages(),
                sub_page_of(msg.id as int) as i64,
            )].accessed_at() == now,
            page_pending(final(self).pages(), msg.id as int) == (persist || page_pending(
                old(self).pages(),
                msg.id as int,
            )),
            forall|x: int|
                i64::MIN <= x <= i64::MAX && x != msg.id ==> #[trigger] page_holds(final(self).pages(), x)
                    == page_holds(old(self).pages(), x),
            forall|x: int|
                i64::MIN <= x <= i64::MAX && x != msg.id ==> #[trigger] page_pending(final(self).pages(), x)
                    == page_pending(old(self).pages(), x),
            forall|x: int|
                i64::MIN <= x <= i64::MAX && x != msg.id && page_holds(old(self).pages(), x)
                    ==> #[trigger] page_message(final(self).pages(), x) == page_message(old(self).pages(), x),
    {
        let ghost m = msg;
        let sub_page_id = SubPageId::from_message_id(msg.id);
        let ghost s = self.sub_pages@;
        let ghost created = !has_page(s, sub_page_id.value);
        let page = self.get_or_create_mut(sub_page_id, now);
        let ghost p0 = *page;
        page.update_last_accessed(now);
        let ghost pu = *page;
        page.add_message(msg, persist);
        let ghost p1 = *page;
        proof {
            assert(pu.page_id() == sub_page_id);
            assert(pu.messages() == p0.messages());
            assert(sub_page_of(m.id as int) == pu.page_id().value);
            assert(ids_of(p1.messages()) == ids_of(pu.messages()).insert(m.id as int));
            let t = self.sub_pages@;
            let i = if created { s.len() as int } else { page_index(s, sub_page_id.value) };
            assert(t[i] == p1);
            assert(pages_wf(t)) by {
                assert forall|a: int, b: int| #![trigger t[a], t[b]] 0 <= a < b < t.len() implies t[a].page_id().value
                    != t[b].page_id().value by {
                    if a != i && b != i {
                        assert(t[a] == s[a] && t[b] == s[b]);
                    } else if a == i {
                        assert(t[b] == s[b]);
                        if !created {
                            assert(s[a].page_id().value != s[b].page_id().value);
                        } else {
                            assert(!is_page_at(s, sub_page_id.value, b));
                        }
                    } else {
                        assert(t[a] == s[a]);
                        if !created {
                            assert(s[a].page_id().value != s[b].page_id().value);
                        } else {
                            assert(!is_page_at(s, sub_page_id.value, a));
                        }
                    }
                }
                assert forall|a: int| 0 <= a < t.len() implies (#[trigger] t[a]).wf() by {
                    if a != i {
                        assert(t[a] == s[a]);
                    }
                }
            }
            lemma_other_pages(s, t, i, sub_page_id.value);
            assert(sub_page_of(m.id as int) == sub_page_id.value);
            lemma_sub_page_in_range(m.id as int);
            assert forall|x: int| i64::MIN <= x <= i64::MAX && x != m.id implies (#[trigger] page_holds(t, x) == page_holds(s, x))
                && (page_holds(s, x) ==> page_message(t, x) == page_message(s, x)) by {
                lemma_sub_page_in_range(x);
                if sub_page_of(x) == sub_page_id.value {
                    assert(page_index(t, sub_page_id.value) == i);
                    assert(sub_page_of(x) as i64 == sub_page_id.value);
                    if created {
                        assert(!has_page(s, sub_page_id.value));
                        assert(!page_holds(s, x));
                        assert(ids_of(p0.messages()) =~= Set::<int>::empty());
                        assert(!ids_of(p1.messages()).contains(x));
                        assert(!page_holds(t, x));
                    } else {
                        assert(p0 == s[i]);
                        assert(page_index(s, sub_page_id.value) == i);
                        assert(ids_of(p1.messages()).contains(x) == ids_of(p0.messages()).contains(x));
                        assert(page_holds(t, x) == page_holds(s, x));
                        if page_holds(s, x) {
                            assert(find_message(p1.messages(), x) == find_message(pu.messages(), x));
                            assert(page_message(t, x) == page_message(s, x));
                        }
                    }
                } else {
                    assert(page_holds(t, x) == page_holds(s, x));
                    assert(page_holds(s, x) ==> page_message(t, x) == page_message(s, x));
                }
            }
            assert(page_pending(t, m.id as int) == (persist || page_pending(s, m.id as int))) by {
                assert(page_index(t, sub_page_id.value) == i);
                assert(sub_page_of(m.id as int) as i64 == sub_page_id.value);
                if created {
                    assert(!has_page(s, sub_page_id.value));
                } else {
                    assert(p0 == s[i]);
                    assert(page_index(s, sub_page_id.value) == i);
                }
            }
            assert(self.pages() == t);
            assert(old(self).pages() == s);
            assert forall|x: int|
                i64::MIN <= x <= i64::MAX && x != m.id implies (#[trigger] page_holds(self.pages(), x) == page_holds(
                    old(self).pages(),
                    x,
                )) && (page_holds(old(self).pages(), x) ==> page_message(self.pages(), x)
                    == page_message(old(self).pages(), x)) by {
                assert(page_holds(t, x) == page_holds(s, x));
            }
            assert forall|x: int|
                i64::MIN <= x <= i64::MAX && x != m.id implies #[trigger] page_pending(self.pages(), x)
                    == page_pending(old(self).pages(), x) by {
                lemma_sub_page_in_range(x);
                if sub_page_of(x) == sub_page_id.value {
                    assert(page_index(t, sub_page_id.value) == i);
                    assert(sub_page_of(x) as i64 == sub_page_id.value);
                    if created {
                        assert(!has_page(s, sub_page_id.value));
                        assert(!p1.pending().contains(x));
                    } else {
                        assert(p0 == s[i]);
                        assert(page_index(s, sub_page_id.value) == i);
                        assert(p1.pending().contains(x) == p0.pending().contains(x));
                    }
                } else {
                    assert(page_holds(t, x) == page_holds(s, x));
                    assert(page_pending(t, x) == page_pending(s, x));
                }
            }
            assert forall|x: int|
                i64::MIN <= x <= i64::MAX && x != m.id && page_holds(old(self).pages(), x)
                    implies #[trigger] page_message(self.pages(), x) == page_message(old(self).pages(), x) by {
                assert(page_holds(t, x) == page_holds(s, x));
                assert(page_message(t, x) == page_message(s, x));
            }
        }
    }

    /// The smallest id waiting for persistence in any sub page.
    pub fn get_persisted_min_message_id(&self) -> (r: Option<i64>)
        requires
            self.wf(),
        ensures
            match r {
                None => all_pending(self.pages()) == Set::<int>::empty(),
                Some(m) => is_min_of(all_pending(self.pages()), m as int),
            },
    {
        let mut calc = MinMessageIdCalculator::new();
        let n = self.sub_pages.len();
        let mut k: usize = 0;
        while k < n
            invariant
                n == self.sub_pages@.len(),
                k <= n,
                self.wf(),
                match calc@ {
                    None => all_pending(self.pages().take(k as int)) == Set::<int>::empty(),
                    Some(m) => is_min_of(all_pending(self.pages().take(k as int)), m as int),
                },
            decreases n - k,
        {
            assert(self.pages()[k as int].wf());
            let page_min = self.sub_pages[k].get_persisted_min_message_id();
            let ghost before = calc@;
            calc.add(page_min);
            proof {
                let t = self.pages().take(k as int);
                let t1 = self.pages().take(k + 1);
                assert(t1.drop_last() =~= t);
                assert(all_pending(t1) == all_pending(t).union(self.pages()[k as int].pending()));
                let a = all_pending(t);
                let b = self.pages()[k as int].pending();
                match (before, page_min) {
                    (Some(x), Some(y)) => {
                        assert forall|z: int| #[trigger] a.union(b).contains(z) implies calc@->0
                            <= z by {
                            if a.contains(z) {
                            } else {
                            }
                        }
                    },
                    (Some(x), None) => {
                        assert(a.union(b) =~= a);
                    },
                    (None, _) => {
                        assert(a.union(b) =~= b);
                    },
                }
            }
            k += 1;
        }
        assert(self.pages().take(n as int) =~= self.pages());
        calc.get()
    }

    /// Adds, for each sub page with messages waiting for persistence, its id
    /// and those messages.
    pub fn get_messages_to_persist(
        &self,
        result: &mut Vec<(SubPageId, Vec<Arc<MySbMessageContent>>)>,
    )
        requires
            self.wf(),
        ensures
            final(result)@.len() == old(result)@.len() + persist_plan(self.pages()).len(),
            final(result)@.take(old(result)@.len() as int) == old(result)@,
            forall|i: int|
                0 <= i < persist_plan(self.pages()).len() ==> (#[trigger] final(result)@[old(result)@.len() + i]).0 == persist_plan(self.pages())[i].0 && final(result)@[old(result)@.len() + i].1@ == persist_plan(self.pages())[i].1,
    {
        let n = self.sub_pages.len();
        let mut k: usize = 0;
        let ghost base = old(result)@;
        while k < n
            invariant
                n == self.sub_pages@.len(),
                k <= n,
                self.wf(),
                base == old(result)@,
                result@.len() == base.len() + persist_plan(self.pages().take(k as int)).len(),
                result@.take(base.len() as int) == base,
                forall|i: int|
                    0 <= i < persist_plan(self.pages().take(k as int)).len() ==> (
                    #[trigger] result@[base.len() + i]).0 == persist_plan(
                        self.pages().take(k as int),
                    )[i].0 && result@[base.len() + i].1@ == persist_plan(
                        self.pages().take(k as int),
                    )[i].1,
            decreases n - k,
        {
            assert(self.pages()[k as int].wf());
            let ghost before = result@;
            self.sub_pages[k].collect_messages_to_persist(result);
            proof {
                let t = self.pages().take(k as int);
                let t1 = self.pages().take(k + 1);
                assert(t1.drop_last() =~= t);
                assert(result@.take(base.len() as int) =~= base) by {
                    assert forall|i: int| 0 <= i < base.len() implies result@[i] == base[i] by {
                        assert(result@.take(before.len() as int)[i] == before[i]);
                        assert(before.take(base.len() as int)[i] == base[i]);
                    }
                }
                assert forall|i: int| 0 <= i < persist_plan(t1).len() implies (
                #[trigger] result@[base.len() + i]).0 == persist_plan(t1)[i].0 && result@[base.len()
                    + i].1@ == persist_plan(t1)[i].1 by {
                    if i < persist_plan(t).len() {
                        assert(result@.take(before.len() as int)[base.len() + i] == before[base.len()
                            + i]);
                    }
                }
            }
            k += 1;
        }
        assert(self.pages().take(n as int) =~= self.pages());
    }

    /// The ids of the sub page are persisted.
    pub fn mark_messages_as_persisted(&mut self, sub_page_id: SubPageId, ids: &QueueWithIntervals)
        requires
            old(self).wf(),
            ids.wf(),
        ensures
            final(self).wf(),
            marked_persisted(old(self).pages(), final(self).pages(), sub_page_id.value, ids@),
    {
        if let Some(i) = self.find(sub_page_id) {
            assert(self.pages()[i as int].wf());
            self.sub_pages[i].mark_messages_as_persisted(ids);
        }
    }

    /// Garbage collection below `min_message_id` in every sub page.
    pub fn gc_messages(&mut self, min_message_id: i64)
        requires
            old(self).wf(),
        ensures
            final(self).wf(),
            final(self).pages().len() == old(self).pages().len(),
            forall|i: int|
                0 <= i < old(self).pages().len() ==> gc_done(
                    old(self).pages()[i],
                    #[trigger] final(self).pages()[i],
                    min_message_id as int,
                ),
    {
        let n = self.sub_pages.len();
        let mut k: usize = 0;
        while k < n
            invariant
                n == self.sub_pages@.len(),
                n == old(self).sub_pages@.len(),
                k <= n,
                old(self).wf(),
                forall|i: int|
                    0 <= i < k ==> gc_done(
                        old(self).pages()[i],
                        #[trigger] self.pages()[i],
                        min_message_id as int,
                    ),
                forall|i: int| k <= i < n ==> #[trigger] self.pages()[i] == old(self).pages()[i],
            decreases n - k,
        {
            assert(self.pages()[k as int] == old(self).pages()[k as int]);
            assert(old(self).pages()[k as int].wf());
            self.sub_pages[k].gc_messages(min_message_id);
            k += 1;
        }
        proof {
            assert forall|i: int, j: int|
                #![trigger self.pages()[i], self.pages()[j]]
                0 <= i < j < self.pages().len() implies self.pages()[i].page_id().value
                    != self.pages()[j].page_id().value by {
                assert(gc_done(old(self).pages()[i], self.pages()[i], min_message_id as int));
                assert(gc_done(old(self).pages()[j], self.pages()[j], min_message_id as int));
                assert(old(self).pages()[i].page_id().value != old(self).pages()[j].page_id().value);
            }
            assert forall|i: int| 0 <= i < self.pages().len() implies (#[trigger] self.pages()[i]).wf() by {
                assert(gc_done(old(self).pages()[i], self.pages()[i], min_message_id as int));
            }
        }
    }
}

/// Garbage collection of every sub page below `min` keeps in memory, as it
/// was, each message that waits for persistence or is not below `min`.
pub proof fn lemma_pages_gc_keeps_needed(old_s: Seq<SubPage>, new_s: Seq<SubPage>, min: int, x: int)
    requires
        pages_wf(old_s),
        new_s.len() == old_s.len(),
        forall|i: int| 0 <= i < old_s.len() ==> gc_done(old_s[i], #[trigger] new_s[i], min),
        i64::MIN <= x <= i64::MAX,
        page_holds(old_s, x),
        x >= min || page_pending(old_s, x),
    ensures
        page_holds(new_s, x),
        page_message(new_s, x) == page_message(old_s, x),
{
    lemma_sub_page_in_range(x);
    let p = sub_page_of(x) as i64;
    let i = page_index(old_s, p);
    assert(is_page_at(old_s, p, i));
    assert(gc_done(old_s[i], new_s[i], min));
    assert forall|a: int, b: int|
        #![trigger new_s[a], new_s[b]]
        0 <= a < b < new_s.len() implies new_s[a].page_id().value != new_s[b].page_id().value by {
        assert(gc_done(old_s[a], new_s[a], min));
        assert(gc_done(old_s[b], new_s[b], min));
        assert(old_s[a].page_id().value != old_s[b].page_id().value);
    }
    assert forall|a: int| 0 <= a < new_s.len() implies (#[trigger] new_s[a]).wf() by {
        assert(gc_done(old_s[a], new_s[a], min));
    }
    assert(is_page_at(new_s, p, i));
    lemma_page_index(new_s, p, i);
    crate::messages::sub_page::lemma_gc_keeps_needed(old_s[i], new_s[i], min, x);
}

/// Garbage collection changes no message's waiting for persistence.
pub proof fn lemma_pages_gc_keeps_pending(old_s: Seq<SubPage>, new_s: Seq<SubPage>, min: int, x: int)
    requires
        pages_wf(old_s),
        new_s.len() == old_s.len(),
        forall|i: int| 0 <= i < old_s.len() ==> gc_done(old_s[i], #[trigger] new_s[i], min),
    ensures
        page_pending(new_s, x) == page_pending(old_s, x),
{
    let p = sub_page_of(x) as i64;
    assert forall|a: int, b: int|
        #![trigger new_s[a], new_s[b]]
        0 <= a < b < new_s.len() implies new_s[a].page_id().value != new_s[b].page_id().value by {
        assert(gc_done(old_s[a], new_s[a], min));
        assert(gc_done(old_s[b], new_s[b], min));
        assert(old_s[a].page_id().value != old_s[b].page_id().value);
    }
    assert forall|a: int| 0 <= a < new_s.len() implies (#[trigger] new_s[a]).wf() by {
        assert(gc_done(old_s[a], new_s[a], min));
    }
    if has_page(old_s, p) {
        let i = page_index(old_s, p);
        assert(is_page_at(old_s, p, i));
        assert(gc_done(old_s[i], new_s[i], min));
        assert(is_page_at(new_s, p, i));
        lemma_page_index(new_s, p, i);
    }
    if has_page(new_s, p) {
        let j = page_index(new_s, p);
        assert(is_page_at(new_s, p, j));
        assert(gc_done(old_s[j], new_s[j], min));
        assert(is_page_at(old_s, p, j));
        lemma_page_index(old_s, p, j);
        lemma_page_index(new_s, p, j);
    }
}

/// Marking ids as persisted makes no other message wait for persistence.
pub proof fn lemma_marked_persisted_pending(
    old_s: Seq<SubPage>,
    new_s: Seq<SubPage>,
    sid: i64,
    ids: Set<int>,
    x: int,
)
    requires
        pages_wf(old_s),
        pages_wf(new_s),
        marked_persisted(old_s, new_s, sid, ids),
    ensures
        page_pending(new_s, x) ==> page_pending(old_s, x),
{
    let p = sub_page_of(x) as i64;
    if has_page(old_s, sid) && page_pending(new_s, x) {
        let i = page_index(old_s, sid);
        assert(is_page_at(old_s, sid, i));
        let j = page_index(new_s, p);
        assert(is_page_at(new_s, p, j));
        if j != i {
            assert(new_s[j] == old_s[j]);
        }
        assert(is_page_at(old_s, p, j));
        lemma_page_index(old_s, p, j);
    }
}

} // verus!
