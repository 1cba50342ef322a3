//! The sessions that published to a topic lately, each with a countdown of
//! seconds during which it shows as active.
use vstd::prelude::*;

use crate::sessions::session_id::SessionId;
use vstd::std_specs::iter::IteratorSpec;

verus! {

/// Some entry of `s` belongs to the session `id`.
pub open spec fn has_publisher(s: Seq<(SessionId, u8)>, id: i64) -> bool {
    exists|i: int| 0 <= i < s.len() && (#[trigger] s[i]).0.value == id
}

/// The countdown after one second: every value above zero goes down by one.
pub open spec fn ticked(v: u8) -> u8 {
    if v > 0 {
        (v - 1) as u8
    } else {
        0
    }
}

pub struct TopicPublishers {
    inner: Vec<(SessionId, u8)>,
}

impl View for TopicPublishers {
    type V = Seq<(SessionId, u8)>;

    closed spec fn view(&self) -> Seq<(SessionId, u8)> {
        self.inner@
    }
}

impl TopicPublishers {
    /// No session has two entries.
    pub open spec fn wf(&self) -> bool {
        forall|i: int, j: int|
            #![trigger self@[i], self@[j]]
            0 <= i < j < self@.len() ==> self@[i].0.value != self@[j].0.value
    }

    pub fn new() -> (r: Self)
        ensures
            r.wf(),
            r@ == Seq::<(SessionId, u8)>::empty(),
    {
        TopicPublishers { inner: Vec::new() }
    }

    /// Sets the session's countdown, adding the session at the end when it
    /// has none.
    pub fn add(&mut self, session_id: SessionId, value: u8)
        requires
            old(self).wf(),
        ensures
            final(self).wf(),
            has_publisher(old(self)@, session_id.value) ==> exists|i: int|
                0 <= i < old(self)@.len() && old(self)@[i].0.value == session_id.value && final(self)@ == old(self)@.update(i, (old(self)@[i].0, value)),
            !has_publisher(old(self)@, session_id.value) ==> final(self)@ == old(self)@.push(
                (session_id, value),
            ),
    {
        let n = self.inner.len();
        let mut i: usize = 0;
        while i < n
            invariant
                n == self.inner@.len(),
                i <= n,
                self.inner@ == old(self).inner@,
                old(self).wf(),
                forall|j: int| 0 <= j < i ==> (#[trigger] self.inner@[j]).0.value != session_id.value,
            decreases n - i,
        {
            if self.inner[i].0.get_value() == session_id.get_value() {
                let my_session_id = self.inner[i].0;
                self.inner.set(i, (my_session_id, value));
                proof {
                    let t = self.inner@;
                    assert forall|a: int, b: int| #![trigger t[a], t[b]] 0 <= a < b < t.len() implies t[a].0.value
                        != t[b].0.value by {
                        assert(old(self)@[a].0.value != old(self)@[b].0.value);
                    }
                }
                return;
            }
            i += 1;
        }
        self.inner.push((session_id, value));
        proof {
            let t = self.inner@;
            assert forall|a: int, b: int| #![trigger t[a], t[b]] 0 <= a < b < t.len() implies t[a].0.value
                != t[b].0.value by {
                if b < n {
                    assert(old(self)@[a].0.value != old(self)@[b].0.value);
                } else {
                    assert(t[a] == old(self)@[a]);
                }
            }
        }
    }

    pub fn has_session(&self, session_id: SessionId) -> (r: bool)
        ensures
            r == has_publisher(self@, session_id.value),
    {
        let n = self.inner.len();
        let mut i: usize = 0;
        while i < n
            invariant
                n == self.inner@.len(),
                i <= n,
                forall|j: int| 0 <= j < i ==> (#[trigger] self.inner@[j]).0.value != session_id.value,
            decreases n - i,
        {
            if self.inner[i].0.get_value() == session_id.get_value() {
                return true;
            }
            i += 1;
        }
        false
    }

    /// One second passed: every countdown above zero goes down by one.
    pub fn one_second_tick(&mut self)
        requires
            old(self).wf(),
        ensures
            final(self).wf(),
            final(self)@.len() == old(self)@.len(),
            forall|i: int|
                0 <= i < old(self)@.len() ==> (#[trigger] final(self)@[i]).0 == old(self)@[i].0
                    && final(self)@[i].1 == ticked(old(self)@[i].1),
    {
        let n = self.inner.len();
        let mut i: usize = 0;
        while i < n
            invariant
                n == self.inner@.len(),
                n == old(self).inner@.len(),
                i <= n,
                forall|j: int|
                    0 <= j < i ==> (#[trigger] self.inner@[j]).0 == old(self).inner@[j].0
                        && self.inner@[j].1 == ticked(old(self).inner@[j].1),
                forall|j: int| i <= j < n ==> #[trigger] self.inner@[j] == old(self).inner@[j],
            decreases n - i,
        {
            let (id, v) = self.inner[i];
            if v > 0 {
                self.inner.set(i, (id, v - 1));
            }
            i += 1;
        }
        proof {
            let t = self.inner@;
            assert forall|a: int, b: int| #![trigger t[a], t[b]] 0 <= a < b < t.len() implies t[a].0.value
                != t[b].0.value by {
                assert(old(self)@[a].0.value != old(self)@[b].0.value);
            }
        }
    }

    /// Forgets the session.
    pub fn remove(&mut self, session_id: SessionId)
        requires
            old(self).wf(),
        ensures
            final(self).wf(),
            final(self)@ == old(self)@.filter(|x: (SessionId, u8)| x.0.value != session_id.value),
    {
        let ghost pred = |x: (SessionId, u8)| x.0.value != session_id.value;
        let mut result: Vec<(SessionId, u8)> = Vec::new();
        let n = self.inner.len();
        let mut i: usize = 0;
        proof {
            reveal(Seq::filter);
            assert(self.inner@.take(0).filter(pred) =~= Seq::<(SessionId, u8)>::empty());
        }
        while i < n
            invariant
                n == self.inner@.len(),
                self.inner@ == old(self).inner@,
                old(self).wf(),
                i <= n,
                pred == (|x: (SessionId, u8)| x.0.value != session_id.value),
                result@ == self.inner@.take(i as int).filter(pred),
                forall|a: int|
                    0 <= a < result@.len() ==> exists|j: int|
                        0 <= j < i && #[trigger] result@[a] == self.inner@[j],
                forall|a: int, b: int|
                    #![trigger result@[a], result@[b]]
                    0 <= a < b < result@.len() ==> result@[a].0.value != result@[b].0.value,
            decreases n - i,
        {
            let item = self.inner[i];
            let ghost before = result@;
            if item.0.get_value() != session_id.get_value() {
                result.push(item);
                proof {
                    assert forall|a: int| 0 <= a < before.len() implies before[a].0.value
                        != item.0.value by {
                        let j = choose|j: int| 0 <= j < i && #[trigger] before[a] == self.inner@[j];
                        assert(old(self)@[j].0.value != old(self)@[i as int].0.value);
                    }
                    assert forall|a: int| 0 <= a < result@.len() implies exists|j: int|
                        0 <= j < i + 1 && #[trigger] result@[a] == self.inner@[j] by {
                        if a == before.len() {
                            assert(result@[a] == self.inner@[i as int]);
                        } else {
                            let j = choose|j: int| 0 <= j < i && #[trigger] before[a] == self.inner@[j];
                            assert(result@[a] == self.inner@[j]);
                        }
                    }
                }
            }
            proof {
                reveal(Seq::filter);
                assert(self.inner@.take(i + 1).drop_last() =~= self.inner@.take(i as int));
                let t1 = self.inner@.take(i + 1);
                assert(t1.last() == item);
                assert(t1.len() > 0);
                assert(t1.filter(pred) == (if pred(t1.last()) {
                    t1.drop_last().filter(pred).push(t1.last())
                } else {
                    t1.drop_last().filter(pred)
                }));
                assert(pred(item) == (item.0.value != session_id.value));
                assert(result@ == t1.filter(pred));
            }
            i += 1;
        }
        proof {
            assert(self.inner@.take(n as int) =~= self.inner@);
        }
        self.inner = result;
    }

    pub fn len(&self) -> (r: usize)
        ensures
            r == self@.len(),
    {
        self.inner.len()
    }

    /// The sessions with their countdowns, in order.
    pub fn iter(&self) -> (r: std::slice::Iter<'_, (SessionId, u8)>)
        ensures
            r.remaining() == self@.as_ref(),
    {
        let sl = self.inner.as_slice();
        let r = sl.iter();
        proof {
            vstd::std_specs::slice::axiom_spec_slice_iter(sl);
        }
        r
    }
}

/// After `add` the session is a publisher with the countdown given.
pub proof fn lemma_add_then_has_session(old: Seq<(SessionId, u8)>, new: Seq<(SessionId, u8)>, id: i64, value: u8)
    requires
        has_publisher(old, id) ==> exists|i: int|
            0 <= i < old.len() && old[i].0.value == id && new == old.update(i, (old[i].0, value)),
        !has_publisher(old, id) ==> new == old.push((SessionId { value: id }, value)),
    ensures
        has_publisher(new, id),
        exists|i: int| 0 <= i < new.len() && new[i].0.value == id && #[trigger] new[i].1 == value,
{
    if has_publisher(old, id) {
        let i = choose|i: int|
            0 <= i < old.len() && old[i].0.value == id && new == old.update(i, (old[i].0, value));
        assert(new[i].0.value == id && new[i].1 == value);
    } else {
        assert(new[old.len() as int].0.value == id && new[old.len() as int].1 == value);
    }
}

/// After `remove` the session is no publisher, and every other one stays.
pub proof fn lemma_remove_then_no_session(old: Seq<(SessionId, u8)>, id: i64, other: i64)
    requires
        other != id,
    ensures
        !has_publisher(old.filter(|x: (SessionId, u8)| x.0.value != id), id),
        has_publisher(old, other) ==> has_publisher(
            old.filter(|x: (SessionId, u8)| x.0.value != id),
            other,
        ),
{
    let pred = |x: (SessionId, u8)| x.0.value != id;
    let f = old.filter(pred);
    if has_publisher(f, id) {
        let i = choose|i: int| 0 <= i < f.len() && (#[trigger] f[i]).0.value == id;
        old.lemma_filter_pred(pred, i);
    }
    if has_publisher(old, other) {
        let i = choose|i: int| 0 <= i < old.len() && (#[trigger] old[i]).0.value == other;
        old.lemma_filter_contains(pred, i);
        let j = choose|j: int| 0 <= j < f.len() && f[j] == old[i];
        assert(f[j].0.value == other);
    }
}

/// Each tick brings a running countdown one second closer to zero, and a
/// countdown at zero stays there.
pub proof fn lemma_tick_counts_down(v: u8)
    ensures
        v > 0 ==> ticked(v) == v - 1,
        v == 0 ==> ticked(v) == 0,
{
}

} // verus!
