//! How many times each message of a queue was handed out without being
//! confirmed.
use vstd::prelude::*;

verus! {

pub struct DeliveryAttempt {
    pub message_id: i64,
    pub attempt: i32,
}

impl DeliveryAttempt {
    pub fn get_key(&self) -> (r: &i64)
        ensures
            *r == self.message_id,
    {
        &self.message_id
    }
}

pub struct DeliveryAttempts {
    attempts: Vec<DeliveryAttempt>,
}

/// Some entry of `s` has the id `k`.
pub open spec fn has_entry(s: Seq<DeliveryAttempt>, k: int) -> bool {
    exists|i: int| 0 <= i < s.len() && (#[trigger] s[i]).message_id == k
}

impl View for DeliveryAttempts {
    type V = Map<int, i32>;

    /// Message id to the number of failed deliveries.
    closed spec fn view(&self) -> Map<int, i32> {
        Map::new(
            |k: int| has_entry(self.attempts@, k),
            |k: int|
                self.attempts@[choose|i: int|
                    0 <= i < self.attempts@.len() && (#[trigger] self.attempts@[i]).message_id
                        == k].attempt,
        )
    }
}

/// What `get` answers: the count, or 0 for an id never counted.
pub open spec fn attempt_of(m: Map<int, i32>, id: int) -> i32 {
    if m.contains_key(id) {
        m[id]
    } else {
        0
    }
}

/// The count after one more failed delivery of `id`.
pub open spec fn bumped(m: Map<int, i32>, id: int) -> Map<int, i32> {
    m.insert(
        id,
        if m.contains_key(id) {
            (m[id] + 1) as i32
        } else {
            0i32
        },
    )
}

impl DeliveryAttempts {
    /// No message id has two entries.
    pub closed spec fn wf(&self) -> bool {
        forall|i: int, j: int|
            #![trigger self.attempts@[i], self.attempts@[j]]
            0 <= i < j < self.attempts@.len() ==> self.attempts@[i].message_id
                != self.attempts@[j].message_id
    }

    pub fn new() -> (r: Self)
        ensures
            r.wf(),
            r@ == Map::<int, i32>::empty(),
    {
        let r = DeliveryAttempts { attempts: Vec::new() };
        assert(r@ =~= Map::<int, i32>::empty());
        r
    }

    fn find(&self, message_id: i64) -> (r: Option<usize>)
        requires
            self.wf(),
        ensures
            match r {
                Some(i) => i < self.attempts@.len() && self.attempts@[i as int].message_id
                    == message_id,
                None => !has_entry(self.attempts@, message_id as int),
            },
    {
        let n = self.attempts.len();
        let mut i: usize = 0;
        while i < n
            invariant
                n == self.attempts@.len(),
                i <= n,
                forall|j: int| 0 <= j < i ==> (#[trigger] self.attempts@[j]).message_id != message_id,
            decreases n - i,
        {
            if self.attempts[i].message_id == message_id {
                return Some(i);
            }
            i += 1;
        }
        None
    }

    proof fn lemma_entry(&self, i: int)
        requires
            self.wf(),
            0 <= i < self.attempts@.len(),
        ensures
            self@.contains_key(self.attempts@[i].message_id as int),
            self@[self.attempts@[i].message_id as int] == self.attempts@[i].attempt,
    {
        let k = self.attempts@[i].message_id as int;
        assert(has_entry(self.attempts@, k));
        let j = choose|j: int|
            0 <= j < self.attempts@.len() && (#[trigger] self.attempts@[j]).message_id == k;
        if j != i {
            if j < i {
                assert(self.attempts@[j].message_id != self.attempts@[i].message_id);
            } else {
                assert(self.attempts@[i].message_id != self.attempts@[j].message_id);
            }
        }
    }

    /// Failed deliveries of the message so far.
    pub fn get(&self, message_id: i64) -> (r: i32)
        requires
            self.wf(),
        ensures
            r == attempt_of(self@, message_id as int),
    {
        match self.find(message_id) {
            Some(i) => {
                proof {
                    self.lemma_entry(i as int);
                }
                self.attempts[i].attempt
            },
            None => 0,
        }
    }

    /// Forgets the message.
    pub fn reset(&mut self, message_id: i64)
        requires
            old(self).wf(),
        ensures
            final(self).wf(),
            final(self)@ == old(self)@.remove(message_id as int),
    {
        match self.find(message_id) {
            Some(i) => {
                let ghost s = self.attempts@;
                self.attempts.remove(i);
                proof {
                    let t = self.attempts@;
                    assert forall|a: int| 0 <= a < t.len() implies #[trigger] t[a] == (if a < i {
                        s[a]
                    } else {
                        s[a + 1]
                    }) by {}
                    assert forall|a: int, b: int|
                        #![trigger t[a], t[b]]
                        0 <= a < b < t.len() implies t[a].message_id != t[b].message_id by {
                        let aa = if a < i { a } else { a + 1 };
                        let bb = if b < i { b } else { b + 1 };
                        assert(s[aa].message_id != s[bb].message_id);
                    }
                    assert forall|k: int| #[trigger] self@.contains_key(k) == old(self)@.remove(
                        message_id as int,
                    ).contains_key(k) by {
                        if has_entry(t, k) {
                            let a = choose|a: int| 0 <= a < t.len() && (#[trigger] t[a]).message_id == k;
                            let aa = if a < i { a } else { a + 1 };
                            assert(s[aa].message_id == k);
                            assert(aa != i);
                        }
                        if has_entry(s, k) && k != message_id {
                            let a = choose|a: int| 0 <= a < s.len() && (#[trigger] s[a]).message_id == k;
                            if a < i {
                                assert(t[a].message_id == k);
                            } else {
                                assert(t[a - 1].message_id == k);
                            }
                        }
                    }
                    assert forall|k: int| #[trigger] self@.contains_key(k) implies self@[k] == old(self)@[k] by {
                        let a = choose|a: int| 0 <= a < t.len() && (#[trigger] t[a]).message_id == k;
                        self.lemma_entry(a);
                        let aa = if a < i { a } else { a + 1 };
                        old(self).lemma_entry(aa);
                    }
                    assert(self@ =~= old(self)@.remove(message_id as int));
                }
            },
            None => {
                assert(old(self)@.remove(message_id as int) =~= old(self)@);
            },
        }
    }

    /// Counts one more failed delivery: a message seen for the first time
    /// starts at 0.
    pub fn add(&mut self, message_id: i64)
        requires
            old(self).wf(),
            old(self)@.contains_key(message_id as int) ==> old(self)@[message_id as int] < i32::MAX,
        ensures
            final(self).wf(),
            final(self)@ == bumped(old(self)@, message_id as int),
    {
        let ghost s = self.attempts@;
        match self.find(message_id) {
            Some(i) => {
                proof {
                    self.lemma_entry(i as int);
                }
                let a = self.attempts[i].attempt;
                self.attempts.set(i, DeliveryAttempt { message_id, attempt: a + 1 });
                proof {
                    let t = self.attempts@;
                    assert forall|a: int, b: int|
                        #![trigger t[a], t[b]]
                        0 <= a < b < t.len() implies t[a].message_id != t[b].message_id by {
                        assert(s[a].message_id != s[b].message_id);
                    }
                    assert forall|k: int| #[trigger] self@.contains_key(k) == bumped(
                        old(self)@,
                        message_id as int,
                    ).contains_key(k) by {
                        if has_entry(t, k) {
                            let a = choose|a: int| 0 <= a < t.len() && (#[trigger] t[a]).message_id == k;
                            assert(s[a].message_id == k);
                        }
                        if has_entry(s, k) {
                            let a = choose|a: int| 0 <= a < s.len() && (#[trigger] s[a]).message_id == k;
                            assert(t[a].message_id == k);
                        }
                    }
                    assert forall|k: int| #[trigger] self@.contains_key(k) implies self@[k] == bumped(
                        old(self)@,
                        message_id as int,
                    )[k] by {
                        let a = choose|a: int| 0 <= a < t.len() && (#[trigger] t[a]).message_id == k;
                        self.lemma_entry(a);
                        old(self).lemma_entry(a);
                    }
                    assert(self@ =~= bumped(old(self)@, message_id as int));
                }
            },
            None => {
                self.attempts.push(DeliveryAttempt { message_id, attempt: 0 });
                proof {
                    let t = self.attempts@;
                    assert forall|a: int, b: int|
                        #![trigger t[a], t[b]]
                        0 <= a < b < t.len() implies t[a].message_id != t[b].message_id by {
                        if b == s.len() {
                            assert(t[a] == s[a]);
                        } else {
                            assert(s[a].message_id != s[b].message_id);
                        }
                    }
                    assert forall|k: int| #[trigger] self@.contains_key(k) == bumped(
                        old(self)@,
                        message_id as int,
                    ).contains_key(k) by {
                        if has_entry(t, k) {
                            let a = choose|a: int| 0 <= a < t.len() && (#[trigger] t[a]).message_id == k;
                            if a < s.len() {
                                assert(s[a].message_id == k);
                            }
                        }
                        if has_entry(s, k) {
                            let a = choose|a: int| 0 <= a < s.len() && (#[trigger] s[a]).message_id == k;
                            assert(t[a].message_id == k);
                        }
                        if k == message_id {
                            assert(t[s.len() as int].message_id == k);
                        }
                    }
                    assert forall|k: int| #[trigger] self@.contains_key(k) implies self@[k] == bumped(
                        old(self)@,
                        message_id as int,
                    )[k] by {
                        let a = choose|a: int| 0 <= a < t.len() && (#[trigger] t[a]).message_id == k;
                        self.lemma_entry(a);
                        if a < s.len() {
                            old(self).lemma_entry(a);
                        }
                    }
                    assert(self@ =~= bumped(old(self)@, message_id as int));
                }
            },
        }
    }
}

/// After `add`, `get` answers one more for a message counted before and 0
/// for one seen the first time; every other message keeps its count.
pub proof fn lemma_get_after_add(m: Map<int, i32>, id: int, other: int)
    requires
        m.contains_key(id) ==> m[id] < i32::MAX,
        other != id,
    ensures
        attempt_of(bumped(m, id), id) == if m.contains_key(id) {
            attempt_of(m, id) + 1
        } else {
            0
        },
        attempt_of(bumped(m, id), other) == attempt_of(m, other),
{
}

/// After `reset`, `get` answers 0 for the message and the same as before
/// for every other one.
pub proof fn lemma_get_after_reset(m: Map<int, i32>, id: int, other: int)
    requires
        other != id,
    ensures
        attempt_of(m.remove(id), id) == 0,
        attempt_of(m.remove(id), other) == attempt_of(m, other),
{
}

} // verus!
