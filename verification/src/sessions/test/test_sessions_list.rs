//! The test sessions, in the order they were added.
use std::sync::Arc;
use vstd::prelude::*;

use crate::messages::message::arc_clone;
use crate::sessions::session_id::SessionId;
use crate::sessions::test::test_session::MyServiceBusTestSession;

verus! {

/// Some session of `s` has the id `id`.
pub open spec fn has_test_session<M>(s: Seq<Arc<MyServiceBusTestSession<M>>>, id: i64) -> bool {
    exists|i: int| 0 <= i < s.len() && (#[trigger] s[i]).session_id.value == id
}

pub struct TestSessionsList<M> {
    items: Vec<Arc<MyServiceBusTestSession<M>>>,
}

impl<M> View for TestSessionsList<M> {
    type V = Seq<Arc<MyServiceBusTestSession<M>>>;

    closed spec fn view(&self) -> Seq<Arc<MyServiceBusTestSession<M>>> {
        self.items@
    }
}

impl<M> TestSessionsList<M> {
    pub fn new() -> (r: Self)
        ensures
            r@ == Seq::<Arc<MyServiceBusTestSession<M>>>::empty(),
    {
        TestSessionsList { items: Vec::new() }
    }

    pub fn add(&mut self, session: Arc<MyServiceBusTestSession<M>>)
        ensures
            final(self)@ == old(self)@.push(session),
    {
        self.items.push(session);
    }

    /// Index of the first session with that id.
    fn find_by_session_id(&self, session_id: SessionId) -> (r: Option<usize>)
        ensures
            match r {
                Some(i) => i < self@.len() && self@[i as int].session_id.value == session_id.value
                    && forall|j: int| 0 <= j < i ==> (#[trigger] self@[j]).session_id.value
                        != session_id.value,
                None => !has_test_session(self@, session_id.value),
            },
    {
        let n = self.items.len();
        let mut i: usize = 0;
        while i < n
            invariant
                n == self.items@.len(),
                i <= n,
                forall|j: int| 0 <= j < i ==> (#[trigger] self.items@[j]).session_id.value
                    != session_id.value,
            decreases n - i,
        {
            if self.items[i].session_id.value == session_id.value {
                return Some(i);
            }
            i += 1;
        }
        None
    }

    /// Takes out the first session with that id.
    pub fn remove_by_session_id(&mut self, session_id: SessionId) -> (r: Option<
        Arc<MyServiceBusTestSession<M>>,
    >)
        ensures
            match r {
                Some(x) => exists|i: int|
                    0 <= i < old(self)@.len() && old(self)@[i] == x && x.session_id.value
                        == session_id.value && final(self)@ == old(self)@.remove(i) && forall|j: int|
                        0 <= j < i ==> (#[trigger] old(self)@[j]).session_id.value
                            != session_id.value,
                None => !has_test_session(old(self)@, session_id.value) && final(self)@ == old(self)@,
            },
    {
        match self.find_by_session_id(session_id) {
            Some(i) => Some(self.items.remove(i)),
            None => None,
        }
    }

    /// Appends every session to `dest`, in order.
    pub fn fill_sessions(&self, dest: &mut Vec<Arc<MyServiceBusTestSession<M>>>)
        ensures
            final(dest)@ == old(dest)@ + self@,
    {
        let n = self.items.len();
        let mut i: usize = 0;
        while i < n
            invariant
                n == self.items@.len(),
                i <= n,
                dest@ == old(dest)@ + self.items@.take(i as int),
            decreases n - i,
        {
            dest.push(arc_clone(&self.items[i]));
            proof {
                assert(self.items@.take(i + 1) == self.items@.take(i as int).push(self.items@[i as int]));
            }
            i += 1;
        }
        assert(self.items@.take(n as int) == self.items@);
    }
}

} // verus!
