//! Packages waiting for an HTTP client, first in first out; a subscriber of
//! a queue has at most one waiting.
use vstd::prelude::*;

use crate::sessions::http_delivery_package::HttpDeliveryPackage;

verus! {

/// Both packages are for the same subscriber of the same queue.
pub open spec fn same_target<M>(a: HttpDeliveryPackage<M>, b: HttpDeliveryPackage<M>) -> bool {
    &&& a.topic_id@ == b.topic_id@
    &&& a.queue_id@ == b.queue_id@
    &&& a.subscriber_id.value == b.subscriber_id.value
}

/// Some package of `s` is for the same subscriber as `p`.
pub open spec fn has_target<M>(s: Seq<HttpDeliveryPackage<M>>, p: HttpDeliveryPackage<M>) -> bool {
    exists|i: int| 0 <= i < s.len() && same_target(#[trigger] s[i], p)
}

pub struct HttpSendQueue<M> {
    queue: Vec<HttpDeliveryPackage<M>>,
}

impl<M> View for HttpSendQueue<M> {
    type V = Seq<HttpDeliveryPackage<M>>;

    closed spec fn view(&self) -> Seq<HttpDeliveryPackage<M>> {
        self.queue@
    }
}

impl<M> HttpSendQueue<M> {
    /// No two packages are for the same subscriber.
    pub open spec fn wf(&self) -> bool {
        forall|i: int, j: int|
            #![trigger self@[i], self@[j]]
            0 <= i < j < self@.len() ==> !same_target(self@[i], self@[j])
    }

    pub fn new() -> (r: Self)
        ensures
            r.wf(),
            r@ == Seq::<HttpDeliveryPackage<M>>::empty(),
    {
        HttpSendQueue { queue: Vec::new() }
    }

    /// Whether a package for that subscriber is waiting already.
    pub fn has_it_already(&self, data: &HttpDeliveryPackage<M>) -> (r: bool)
        ensures
            r == has_target(self@, *data),
    {
        let n = self.queue.len();
        let mut i: usize = 0;
        while i < n
            invariant
                n == self.queue@.len(),
                i <= n,
                forall|j: int| 0 <= j < i ==> !same_target(#[trigger] self.queue@[j], *data),
            decreases n - i,
        {
            let itm = &self.queue[i];
            if itm.topic_id == data.topic_id && itm.queue_id.equals_str(data.queue_id.as_str())
                && itm.subscriber_id.get_value() == data.subscriber_id.get_value() {
                assert(same_target(self.queue@[i as int], *data));
                return true;
            }
            i += 1;
        }
        false
    }

    /// Adds a package at the end. A package for a subscriber that has one
    /// waiting is not accepted.
    pub fn enqueue_messages(&mut self, data: HttpDeliveryPackage<M>)
        requires
            old(self).wf(),
            !has_target(old(self)@, data),
        ensures
            final(self).wf(),
            final(self)@ == old(self)@.push(data),
    {
        self.queue.push(data);
        proof {
            let t = self.queue@;
            assert forall|i: int, j: int| #![trigger t[i], t[j]] 0 <= i < j < t.len() implies !same_target(
                t[i],
                t[j],
            ) by {
                if j == t.len() - 1 {
                    assert(t[i] == old(self)@[i]);
                    if same_target(t[i], t[j]) {
                        assert(has_target(old(self)@, data));
                    }
                } else {
                    assert(t[i] == old(self)@[i] && t[j] == old(self)@[j]);
                }
            }
        }
    }

    /// Takes out the oldest package.
    pub fn get_next_package(&mut self) -> (r: Option<HttpDeliveryPackage<M>>)
        requires
            old(self).wf(),
        ensures
            final(self).wf(),
            old(self)@.len() == 0 ==> r is None && final(self)@ == old(self)@,
            old(self)@.len() > 0 ==> r == Some(old(self)@[0]) && final(self)@ == old(self)@.drop_first(),
    {
        if self.queue.len() == 0 {
            return None;
        }
        let p = self.queue.remove(0);
        proof {
            let t = self.queue@;
            assert(t =~= old(self)@.drop_first());
            assert forall|i: int, j: int| #![trigger t[i], t[j]] 0 <= i < j < t.len() implies !same_target(
                t[i],
                t[j],
            ) by {
                assert(t[i] == old(self)@[i + 1] && t[j] == old(self)@[j + 1]);
            }
        }
        Some(p)
    }

    pub fn len(&self) -> (r: usize)
        ensures
            r == self@.len(),
    {
        self.queue.len()
    }
}

/// First in, first out: a package enqueued behind others comes out after
/// them, and one enqueued into an empty queue comes out next.
pub proof fn lemma_send_queue_fifo<M>(s: Seq<HttpDeliveryPackage<M>>, p: HttpDeliveryPackage<M>)
    ensures
        s.len() == 0 ==> s.push(p)[0] == p && s.push(p).drop_first() == s,
        s.len() > 0 ==> s.push(p)[0] == s[0] && s.push(p).drop_first() == s.drop_first().push(p),
{
    assert(s.len() == 0 ==> s.push(p).drop_first() =~= s);
    assert(s.len() > 0 ==> s.push(p).drop_first() =~= s.drop_first().push(p));
}

} // verus!
