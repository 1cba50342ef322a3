//! The TCP sessions, in session id order, found by session id or by
//! connection id.
use std::sync::Arc;
use vstd::prelude::*;

use crate::messages::message::arc_clone;
use crate::sessions::session_id::SessionId;
use crate::sessions::tcp_session::MyServiceBusTcpSession;

verus! {

/// Some session of `s` has the connection id `c`.
pub open spec fn has_connection(s: Seq<Arc<MyServiceBusTcpSession>>, c: i32) -> bool {
    exists|i: int| 0 <= i < s.len() && (#[trigger] s[i]).conn_id() == c
}

/// Some session of `s` has the session id `id`.
pub open spec fn has_session_id(s: Seq<Arc<MyServiceBusTcpSession>>, id: i64) -> bool {
    exists|i: int| 0 <= i < s.len() && (#[trigger] s[i]).sid().value == id
}

pub struct TcpSessionsList {
    sessions: Vec<Arc<MyServiceBusTcpSession>>,
}

impl View for TcpSessionsList {
    type V = Seq<Arc<MyServiceBusTcpSession>>;

    closed spec fn view(&self) -> Seq<Arc<MyServiceBusTcpSession>> {
        self.sessions@
    }
}

impl TcpSessionsList {
    /// Sorted by strictly growing session id; no connection id twice.
    pub open spec fn wf(&self) -> bool {
        &&& forall|i: int, j: int|
            #![trigger self@[i], self@[j]]
            0 <= i < j < self@.len() ==> self@[i].sid().value < self@[j].sid().value
        &&& forall|i: int, j: int|
            #![trigger self@[i], self@[j]]
            0 <= i < j < self@.len() ==> self@[i].conn_id() != self@[j].conn_id()
    }

    pub fn new() -> (r: Self)
        ensures
            r.wf(),
            r@ == Seq::<Arc<MyServiceBusTcpSession>>::empty(),
    {
        TcpSessionsList { sessions: Vec::new() }
    }

    fn find_by_connection_id(&self, connection_id: i32) -> (r: Option<usize>)
        ensures
            match r {
                Some(i) => i < self@.len() && self@[i as int].conn_id() == connection_id,
                None => !has_connection(self@, connection_id),
            },
    {
        let n = self.sessions.len();
        let mut i: usize = 0;
        while i < n
            invariant
                n == self.sessions@.len(),
                i <= n,
                forall|j: int| 0 <= j < i ==> (#[trigger] self.sessions@[j]).conn_id() != connection_id,
            decreases n - i,
        {
            if self.sessions[i].get_connection_id() == connection_id {
                return Some(i);
            }
            i += 1;
        }
        None
    }

    fn find_by_session_id(&self, session_id: SessionId) -> (r: Option<usize>)
        ensures
            match r {
                Some(i) => i < self@.len() && self@[i as int].sid().value == session_id.value,
                None => !has_session_id(self@, session_id.value),
            },
    {
        let n = self.sessions.len();
        let mut i: usize = 0;
        while i < n
            invariant
                n == self.sessions@.len(),
                i <= n,
                forall|j: int| 0 <= j < i ==> (#[trigger] self.sessions@[j]).sid().value != session_id.value,
            decreases n - i,
        {
            if self.sessions[i].get_session_id().get_value() == session_id.get_value() {
                return Some(i);
            }
            i += 1;
        }
        None
    }

    /// Adds a session at its place by session id. A connection id or
    /// session id that is there already is not accepted.
    pub fn add(&mut self, session: Arc<MyServiceBusTcpSession>)
        requires
            old(self).wf(),
            !has_connection(old(self)@, session.conn_id()),
            !has_session_id(old(self)@, session.sid().value),
        ensures
            final(self).wf(),
            exists|k: int|
                0 <= k <= old(self)@.len() && final(self)@ == old(self)@.insert(k, session),
    {
        let ghost s = self.sessions@;
        let id = session.get_session_id().get_value();
        let n = self.sessions.len();
        let mut k: usize = 0;
        while k < n && self.sessions[k].get_session_id().get_value() < id
            invariant
                k <= n,
                n == self.sessions@.len(),
                s == self.sessions@,
                forall|j: int| 0 <= j < k ==> (#[trigger] s[j]).sid().value < id,
            decreases n - k,
        {
            k += 1;
        }
        let ghost sess = session;
        self.sessions.insert(k, session);
        proof {
            let t = self.sessions@;
            assert(k < n ==> s[k as int].sid().value > id) by {
                if k < n {
                    assert(s[k as int].sid().value != id);
                }
            }
            assert forall|a: int, b: int| #![trigger t[a], t[b]] 0 <= a < b < t.len() implies t[a].sid().value
                < t[b].sid().value && t[a].conn_id() != t[b].conn_id() by {
                if b < k {
                    assert(t[a] == s[a] && t[b] == s[b]);
                } else if a > k {
                    assert(t[a] == s[a - 1] && t[b] == s[b - 1]);
                } else if a == k {
                    assert(t[b] == s[b - 1]);
                    if b - 1 > k {
                        assert(s[k as int].sid().value < s[b - 1].sid().value);
                    }
                    assert(t[b].conn_id() != sess.conn_id());
                } else if b == k {
                    assert(t[a] == s[a]);
                    assert(t[a].conn_id() != sess.conn_id());
                } else {
                    assert(t[a] == s[a] && t[b] == s[b - 1]);
                }
            }
        }
    }

    pub fn get_by_connection_id(&self, connection_id: i32) -> (r: Option<Arc<MyServiceBusTcpSession>>)
        ensures
            match r {
                Some(x) => exists|i: int|
                    0 <= i < self@.len() && self@[i] == x && x.conn_id() == connection_id,
                None => !has_connection(self@, connection_id),
            },
    {
        match self.find_by_connection_id(connection_id) {
            Some(i) => Some(arc_clone(&self.sessions[i])),
            None => None,
        }
    }

    pub fn get_session_id(&self, connection_id: i32) -> (r: Option<SessionId>)
        ensures
            match r {
                Some(x) => exists|i: int|
                    0 <= i < self@.len() && self@[i].sid() == x && self@[i].conn_id() == connection_id,
                None => !has_connection(self@, connection_id),
            },
    {
        match self.find_by_connection_id(connection_id) {
            Some(i) => Some(self.sessions[i].get_session_id()),
            None => None,
        }
    }

    fn remove_at(&mut self, i: usize) -> (r: Arc<MyServiceBusTcpSession>)
        requires
            old(self).wf(),
            i < old(self)@.len(),
        ensures
            final(self).wf(),
            r == old(self)@[i as int],
            final(self)@ == old(self)@.remove(i as int),
    {
        let r = self.sessions.remove(i);
        proof {
            let t = self.sessions@;
            let s = old(self)@;
            assert forall|a: int, b: int| #![trigger t[a], t[b]] 0 <= a < b < t.len() implies t[a].sid().value
                < t[b].sid().value && t[a].conn_id() != t[b].conn_id() by {
                let aa = if a < i { a } else { a + 1 };
                let bb = if b < i { b } else { b + 1 };
                assert(t[a] == s[aa] && t[b] == s[bb]);
            }
        }
        r
    }

    pub fn remove_by_session_id(&mut self, session_id: SessionId) -> (r: Option<Arc<MyServiceBusTcpSession>>)
        requires
            old(self).wf(),
        ensures
            final(self).wf(),
            match r {
                Some(x) => exists|i: int|
                    0 <= i < old(self)@.len() && old(self)@[i] == x && x.sid().value == session_id.value
                        && final(self)@ == old(self)@.remove(i),
                None => !has_session_id(old(self)@, session_id.value) && final(self)@ == old(self)@,
            },
    {
        match self.find_by_session_id(session_id) {
            Some(i) => Some(self.remove_at(i)),
            None => None,
        }
    }

    pub fn remove_by_connection_id(&mut self, connection_id: i32) -> (r: Option<Arc<MyServiceBusTcpSession>>)
        requires
            old(self).wf(),
        ensures
            final(self).wf(),
            match r {
                Some(x) => exists|i: int|
                    0 <= i < old(self)@.len() && old(self)@[i] == x && x.conn_id() == connection_id
                        && final(self)@ == old(self)@.remove(i),
                None => !has_connection(old(self)@, connection_id) && final(self)@ == old(self)@,
            },
    {
        match self.find_by_connection_id(connection_id) {
            Some(i) => Some(self.remove_at(i)),
            None => None,
        }
    }

    /// Appends every session, in session id order.
    pub fn fill_sessions(&self, dest: &mut Vec<Arc<MyServiceBusTcpSession>>)
        ensures
            final(dest)@ == old(dest)@ + self@,
    {
        let n = self.sessions.len();
        let mut i: usize = 0;
        while i < n
            invariant
                n == self.sessions@.len(),
                i <= n,
                dest@ == old(dest)@ + self.sessions@.take(i as int),
            decreases n - i,
        {
            dest.push(arc_clone(&self.sessions[i]));
            proof {
                assert(self.sessions@.take(i + 1) =~= self.sessions@.take(i as int).push(self.sessions@[i as int]));
            }
            i += 1;
        }
        assert(self.sessions@.take(n as int) =~= self.sessions@);
    }

    pub fn len(&self) -> (r: usize)
        ensures
            r == self@.len(),
    {
        self.sessions.len()
    }
}

/// A session added to the list is the one found by its connection id.
pub proof fn lemma_added_session_is_found(
    before: TcpSessionsList,
    after: TcpSessionsList,
    session: Arc<MyServiceBusTcpSession>,
)
    requires
        after.wf(),
        exists|k: int| 0 <= k <= before@.len() && after@ == before@.insert(k, session),
    ensures
        has_connection(after@, session.conn_id()),
        forall|i: int|
            0 <= i < after@.len() && (#[trigger] after@[i]).conn_id() == session.conn_id() ==> after@[i]
                == session,
{
    let k = choose|k: int| 0 <= k <= before@.len() && after@ == before@.insert(k, session);
    assert(after@[k] == session);
    assert forall|i: int|
        0 <= i < after@.len() && (#[trigger] after@[i]).conn_id() == session.conn_id() implies after@[i]
            == session by {
        if i < k {
            assert(after@[i].conn_id() != after@[k].conn_id());
        } else if i > k {
            assert(after@[k].conn_id() != after@[i].conn_id());
        }
    }
}

/// Once removed, no session of that connection is left in the list.
pub proof fn lemma_removed_connection_is_gone(
    before: TcpSessionsList,
    i: int,
    connection_id: i32,
)
    requires
        before.wf(),
        0 <= i < before@.len(),
        before@[i].conn_id() == connection_id,
    ensures
        !has_connection(before@.remove(i), connection_id),
{
    let s = before@.remove(i);
    if has_connection(s, connection_id) {
        let j = choose|j: int| 0 <= j < s.len() && (#[trigger] s[j]).conn_id() == connection_id;
        if j < i {
            assert(s[j] == before@[j]);
            assert(before@[j].conn_id() != before@[i].conn_id());
        } else {
            assert(s[j] == before@[j + 1]);
            assert(before@[i].conn_id() != before@[j + 1].conn_id());
        }
    }
}

} // verus!
