//! A set of message ids kept as a sorted list of inclusive, disjoint and
//! non-adjacent ranges. Queues of a topic, the ids sent on delivery and the
//! ids that wait for persistence are all kept this way.
use vstd::prelude::*;
use vstd::set_lib::{lemma_int_range, lemma_set_disjoint_lens, set_int_range};

verus! {

/// An inclusive range of message ids: `from_id ..= to_id`.
#[derive(Clone, Copy, Debug, PartialEq, Eq, Structural)]
pub struct QueueIndexRange {
    pub from_id: i64,
    pub to_id: i64,
}

impl QueueIndexRange {
    pub open spec fn has(self, x: int) -> bool {
        self.from_id <= x <= self.to_id
    }
}

/// The ids `from ..= to`.
pub open spec fn id_range(from: int, to: int) -> Set<int> {
    Set::new(|x: int| from <= x <= to)
}

/// Ranges that are each non-empty, sorted, and separated by at least one id.
pub open spec fn ranges_well_formed(s: Seq<QueueIndexRange>) -> bool {
    &&& forall|i: int| 0 <= i < s.len() ==> #[trigger] s[i].from_id <= s[i].to_id
    &&& forall|i: int, j: int|
        #![trigger s[i], s[j]]
        0 <= i < j < s.len() ==> s[i].to_id + 1 < s[j].from_id
}

pub open spec fn ranges_contain(s: Seq<QueueIndexRange>, x: int) -> bool {
    exists|i: int| 0 <= i < s.len() && #[trigger] s[i].has(x)
}

/// Every id that one of the ranges holds.
pub open spec fn ranges_set(s: Seq<QueueIndexRange>) -> Set<int> {
    Set::new(|x: int| ranges_contain(s, x))
}

/// `m` is the smallest element of `s`.
pub open spec fn is_min_of(s: Set<int>, m: int) -> bool {
    &&& s.contains(m)
    &&& forall|x: int| #[trigger] s.contains(x) ==> m <= x
}

/// Number of ids covered by the ranges, counted range by range.
pub open spec fn ranges_total(s: Seq<QueueIndexRange>) -> int
    decreases s.len(),
{
    if s.len() == 0 {
        0
    } else {
        ranges_total(s.drop_last()) + (s.last().to_id - s.last().from_id + 1)
    }
}

proof fn lemma_sorted_from(s: Seq<QueueIndexRange>, a: int, b: int)
    requires
        ranges_well_formed(s),
        0 <= a <= b < s.len(),
    ensures
        s[a].from_id <= s[b].from_id,
        s[a].to_id <= s[b].to_id,
{
    if a < b {
        assert(s[a].to_id + 1 < s[b].from_id);
        assert(s[b].from_id <= s[b].to_id);
        assert(s[a].from_id <= s[a].to_id);
    }
}

proof fn lemma_first_is_min(s: Seq<QueueIndexRange>)
    requires
        ranges_well_formed(s),
        s.len() > 0,
    ensures
        is_min_of(ranges_set(s), s[0].from_id as int),
{
    assert(s[0].has(s[0].from_id as int));
    assert(ranges_set(s).contains(s[0].from_id as int));
    assert forall|x: int| #[trigger] ranges_set(s).contains(x) implies s[0].from_id <= x by {
        let i = choose|i: int| 0 <= i < s.len() && #[trigger] s[i].has(x);
        lemma_sorted_from(s, 0, i);
    }
}

proof fn lemma_empty_ranges(s: Seq<QueueIndexRange>)
    requires
        s.len() == 0,
    ensures
        ranges_set(s) == Set::<int>::empty(),
{
    assert(ranges_set(s) =~= Set::<int>::empty());
}

proof fn lemma_total_counts(s: Seq<QueueIndexRange>)
    requires
        ranges_well_formed(s),
    ensures
        ranges_set(s).finite(),
        ranges_set(s).len() == ranges_total(s),
    decreases s.len(),
{
    if s.len() == 0 {
        lemma_empty_ranges(s);
    } else {
        let t = s.drop_last();
        let last = s.last();
        assert(ranges_well_formed(t)) by {
            assert forall|i: int, j: int| #![trigger t[i], t[j]] 0 <= i < j < t.len() implies t[i].to_id
                + 1 < t[j].from_id by {
                assert(t[i] == s[i] && t[j] == s[j]);
            }
            assert forall|i: int| 0 <= i < t.len() implies #[trigger] t[i].from_id <= t[i].to_id by {
                assert(t[i] == s[i]);
            }
        }
        lemma_total_counts(t);
        let r = set_int_range(last.from_id as int, last.to_id + 1);
        lemma_int_range(last.from_id as int, last.to_id + 1);
        assert(ranges_set(s) =~= ranges_set(t) + r) by {
            assert forall|x: int| ranges_set(s).contains(x) implies (ranges_set(t) + r).contains(x) by {
                let i = choose|i: int| 0 <= i < s.len() && #[trigger] s[i].has(x);
                if i < s.len() - 1 {
                    assert(t[i].has(x));
                }
            }
            assert forall|x: int| (ranges_set(t) + r).contains(x) implies ranges_set(s).contains(x) by {
                if ranges_set(t).contains(x) {
                    let i = choose|i: int| 0 <= i < t.len() && #[trigger] t[i].has(x);
                    assert(s[i].has(x));
                } else {
                    assert(s[s.len() - 1].has(x));
                }
            }
        }
        assert(ranges_set(t).disjoint(r)) by {
            assert forall|x: int| ranges_set(t).contains(x) implies !r.contains(x) by {
                let i = choose|i: int| 0 <= i < t.len() && #[trigger] t[i].has(x);
                assert(s[i].to_id + 1 < s[s.len() - 1].from_id);
            }
        }
        lemma_set_disjoint_lens(ranges_set(t), r);
    }
}

proof fn lemma_total_prefix(s: Seq<QueueIndexRange>, k: int)
    requires
        ranges_well_formed(s),
        0 <= k <= s.len(),
    ensures
        ranges_total(s.take(k)) <= ranges_total(s),
        ranges_total(s.take(k)) >= 0,
    decreases s.len() - k,
{
    if k == s.len() {
        assert(s.take(k) =~= s);
        lemma_total_nonneg(s);
    } else {
        lemma_total_prefix(s, k + 1);
        assert(s.take(k + 1).drop_last() =~= s.take(k));
        assert(s[k].from_id <= s[k].to_id);
        lemma_total_nonneg(s.take(k));
    }
}

proof fn lemma_total_nonneg(s: Seq<QueueIndexRange>)
    requires
        forall|i: int| 0 <= i < s.len() ==> #[trigger] s[i].from_id <= s[i].to_id,
    ensures
        ranges_total(s) >= 0,
    decreases s.len(),
{
    if s.len() > 0 {
        let t = s.drop_last();
        assert forall|i: int| 0 <= i < t.len() implies #[trigger] t[i].from_id <= t[i].to_id by {
            assert(t[i] == s[i]);
        }
        lemma_total_nonneg(t);
        assert(s[s.len() - 1].from_id <= s[s.len() - 1].to_id);
    }
}

/// The facts that merging `from ..= to` into the ranges `s` rests on: ranges
/// before `i` end left of `from`, ranges `i .. j` touch the new range, ranges from
/// `j` on start right of `to`.
proof fn lemma_merge(
    s: Seq<QueueIndexRange>,
    i: int,
    j: int,
    from: int,
    to: int,
    m: QueueIndexRange,
)
    requires
        ranges_well_formed(s),
        0 <= i <= j <= s.len(),
        from <= to,
        forall|k: int| 0 <= k < i ==> #[trigger] s[k].to_id + 1 < from,
        forall|k: int| i <= k < j ==> #[trigger] s[k].from_id - 1 <= to,
        i < s.len() ==> s[i].to_id + 1 >= from,
        j < s.len() ==> s[j].from_id - 1 > to,
        i < j ==> m.from_id == (if s[i].from_id < from {
            s[i].from_id as int
        } else {
            from
        }),
        i < j ==> m.to_id == (if s[j - 1].to_id > to {
            s[j - 1].to_id as int
        } else {
            to
        }),
        i == j ==> m.from_id == from && m.to_id == to,
    ensures
        ranges_well_formed(s.subrange(0, i) + seq![m] + s.subrange(j, s.len() as int)),
        ranges_set(s.subrange(0, i) + seq![m] + s.subrange(j, s.len() as int)) == ranges_set(
            s,
        ).union(id_range(from, to)),
{
    let r = s.subrange(0, i) + seq![m] + s.subrange(j, s.len() as int);
    let n = s.len();
    assert(r.len() == i + 1 + (n - j));
    assert forall|a: int| 0 <= a < i implies #[trigger] r[a] == s[a] by {}
    assert(r[i] == m);
    assert forall|a: int| i < a < r.len() implies #[trigger] r[a] == s[a - i - 1 + j] by {}
    // every range that touches the new one lies inside `m`
    assert forall|k: int| i <= k < j implies m.from_id <= #[trigger] s[k].from_id && s[k].to_id
        <= m.to_id by {
        lemma_sorted_from(s, i, k);
        lemma_sorted_from(s, k, j - 1);
    }
    assert(m.from_id <= from && to <= m.to_id);
    // well-formedness
    assert forall|a: int| 0 <= a < r.len() implies #[trigger] r[a].from_id <= r[a].to_id by {
        if a < i {
            assert(r[a] == s[a]);
        } else if a > i {
            assert(r[a] == s[a - i - 1 + j]);
        }
    }
    assert forall|a: int, b: int| #![trigger r[a], r[b]] 0 <= a < b < r.len() implies r[a].to_id
        + 1 < r[b].from_id by {
        if b < i {
            assert(r[a] == s[a] && r[b] == s[b]);
        } else if b == i {
            assert(r[a] == s[a]);
            assert(s[a].to_id + 1 < from);
            if i < j {
                assert(s[a].to_id + 1 < s[i].from_id);
            }
        } else if a > i {
            assert(r[a] == s[a - i - 1 + j] && r[b] == s[b - i - 1 + j]);
        } else if a == i {
            let bb = b - i - 1 + j;
            assert(r[b] == s[bb]);
            lemma_sorted_from(s, j, bb);
            if i < j {
                assert(s[j - 1].to_id + 1 < s[bb].from_id);
            }
        } else {
            let bb = b - i - 1 + j;
            assert(r[a] == s[a] && r[b] == s[bb]);
        }
    }
    // the contents
    assert(ranges_set(r) =~= ranges_set(s).union(id_range(from, to))) by {
        assert forall|x: int| ranges_set(r).contains(x) implies ranges_set(s).union(
            id_range(from, to),
        ).contains(x) by {
            let a = choose|a: int| 0 <= a < r.len() && #[trigger] r[a].has(x);
            if a < i {
                assert(s[a].has(x));
            } else if a > i {
                assert(s[a - i - 1 + j].has(x));
            } else if x < from {
                assert(s[i].has(x));
            } else if x > to {
                assert(s[j - 1].has(x));
            }
        }
        assert forall|x: int| ranges_set(s).union(id_range(from, to)).contains(x) implies ranges_set(
            r,
        ).contains(x) by {
            if from <= x <= to {
                assert(r[i].has(x));
            } else {
                let k = choose|k: int| 0 <= k < s.len() && #[trigger] s[k].has(x);
                if k < i {
                    assert(r[k].has(x));
                } else if k >= j {
                    assert(r[k - j + i + 1] == s[k]);
                    assert(r[k - j + i + 1].has(x));
                } else {
                    assert(r[i].has(x));
                }
            }
        }
    }
}

/// Taking one more range of `s` adds its ids.
pub proof fn lemma_ranges_take_step(s: Seq<QueueIndexRange>, k: int)
    requires
        0 <= k < s.len(),
    ensures
        ranges_set(s.take(k + 1)) == ranges_set(s.take(k)).union(
            id_range(s[k].from_id as int, s[k].to_id as int),
        ),
{
    let t = s.take(k);
    let t1 = s.take(k + 1);
    assert(ranges_set(t1) =~= ranges_set(t).union(id_range(s[k].from_id as int, s[k].to_id as int)))
        by {
        assert forall|x: int| ranges_set(t1).contains(x) implies ranges_set(t).union(
            id_range(s[k].from_id as int, s[k].to_id as int),
        ).contains(x) by {
            let i = choose|i: int| 0 <= i < t1.len() && #[trigger] t1[i].has(x);
            if i < k {
                assert(t[i].has(x));
            }
        }
        assert forall|x: int|
            ranges_set(t).union(id_range(s[k].from_id as int, s[k].to_id as int)).contains(
                x,
            ) implies ranges_set(t1).contains(x) by {
            if ranges_set(t).contains(x) {
                let i = choose|i: int| 0 <= i < t.len() && #[trigger] t[i].has(x);
                assert(t1[i].has(x));
            } else {
                assert(t1[k].has(x));
            }
        }
    }
}

/// Taking no range gives no id; taking all of them gives all.
pub proof fn lemma_ranges_take_ends(s: Seq<QueueIndexRange>)
    ensures
        ranges_set(s.take(0)) == Set::<int>::empty(),
        ranges_set(s.take(s.len() as int)) == ranges_set(s),
{
    lemma_empty_ranges(s.take(0));
    assert(s.take(s.len() as int) =~= s);
}

/// A set of message ids.
pub struct QueueWithIntervals {
    intervals: Vec<QueueIndexRange>,
}

impl View for QueueWithIntervals {
    type V = Set<int>;

    closed spec fn view(&self) -> Set<int> {
        ranges_set(self.intervals@)
    }
}

impl QueueWithIntervals {
    /// The ranges are sorted, non-empty and separated.
    pub closed spec fn wf(&self) -> bool {
        ranges_well_formed(self.intervals@)
    }

    /// The ranges as they are stored.
    pub closed spec fn ranges(&self) -> Seq<QueueIndexRange> {
        self.intervals@
    }

    pub proof fn lemma_finite(&self)
        requires
            self.wf(),
        ensures
            self@.finite(),
            forall|x: int| #[trigger] self@.contains(x) ==> i64::MIN <= x <= i64::MAX,
    {
        lemma_total_counts(self.intervals@);
    }

    pub fn new() -> (q: Self)
        ensures
            q.wf(),
            q@ == Set::<int>::empty(),
    {
        let q = QueueWithIntervals { intervals: Vec::new() };
        proof {
            lemma_empty_ranges(q.intervals@);
        }
        q
    }

    /// A queue that holds the ids of every range given; a range whose
    /// `from_id` is above its `to_id` holds nothing.
    pub fn restore(ranges: Vec<QueueIndexRange>) -> (q: Self)
        ensures
            q.wf(),
            q@ == ranges_set(ranges@),
    {
        let mut q = Self::new();
        let n = ranges.len();
        let mut k: usize = 0;
        while k < n
            invariant
                n == ranges@.len(),
                k <= n,
                q.wf(),
                q@ == ranges_set(ranges@.take(k as int)),
            decreases n - k,
        {
            let r = ranges[k];
            let ghost before = q@;
            if r.from_id <= r.to_id {
                q.merge_range(r.from_id, r.to_id);
            }
            proof {
                let t = ranges@.take(k as int);
                let t1 = ranges@.take(k + 1);
                assert(ranges_set(t1) =~= ranges_set(t).union(id_range(r.from_id as int, r.to_id as int))) by {
                    assert forall|x: int| ranges_set(t1).contains(x) implies ranges_set(t).union(
                        id_range(r.from_id as int, r.to_id as int),
                    ).contains(x) by {
                        let i = choose|i: int| 0 <= i < t1.len() && #[trigger] t1[i].has(x);
                        if i < k {
                            assert(t[i].has(x));
                        }
                    }
                    assert forall|x: int| ranges_set(t).union(id_range(r.from_id as int, r.to_id as int)).contains(
                        x,
                    ) implies ranges_set(t1).contains(x) by {
                        if ranges_set(t).contains(x) {
                            let i = choose|i: int| 0 <= i < t.len() && #[trigger] t[i].has(x);
                            assert(t1[i].has(x));
                        } else {
                            assert(t1[k as int].has(x));
                        }
                    }
                }
                if r.from_id > r.to_id {
                    assert(id_range(r.from_id as int, r.to_id as int) =~= Set::<int>::empty());
                    assert(before.union(Set::<int>::empty()) =~= before);
                }
            }
            k += 1;
        }
        assert(ranges@.take(n as int) =~= ranges@);
        q
    }

    /// Replaces the content with the ids of the given ranges.
    pub fn reset(&mut self, ranges: Vec<QueueIndexRange>)
        ensures
            final(self).wf(),
            final(self)@ == ranges_set(ranges@),
    {
        *self = Self::restore(ranges);
    }

    /// Adds every id `from ..= to`.
    pub fn merge_range(&mut self, from: i64, to: i64)
        requires
            old(self).wf(),
            from <= to,
        ensures
            final(self).wf(),
            final(self)@ == old(self)@.union(id_range(from as int, to as int)),
    {
        let n = self.intervals.len();
        let mut i: usize = 0;
        while i < n && (self.intervals[i].to_id as i128) + 1 < (from as i128)
            invariant
                i <= n,
                n == self.intervals@.len(),
                forall|k: int| 0 <= k < i ==> #[trigger] self.intervals@[k].to_id + 1 < from,
            decreases n - i,
        {
            i += 1;
        }
        let mut j: usize = i;
        while j < n && (self.intervals[j].from_id as i128) - 1 <= (to as i128)
            invariant
                i <= j <= n,
                n == self.intervals@.len(),
                forall|k: int| i <= k < j ==> #[trigger] self.intervals@[k].from_id - 1 <= to,
            decreases n - j,
        {
            j += 1;
        }
        let mut new_from = from;
        let mut new_to = to;
        if i < j {
            if self.intervals[i].from_id < from {
                new_from = self.intervals[i].from_id;
            }
            if self.intervals[j - 1].to_id > to {
                new_to = self.intervals[j - 1].to_id;
            }
        }
        let m = QueueIndexRange { from_id: new_from, to_id: new_to };
        let ghost s = self.intervals@;
        let mut result: Vec<QueueIndexRange> = Vec::new();
        let mut k: usize = 0;
        while k < i
            invariant
                k <= i <= n,
                n == s.len(),
                s == self.intervals@,
                result@ == s.subrange(0, k as int),
            decreases i - k,
        {
            result.push(self.intervals[k]);
            k += 1;
        }
        result.push(m);
        let mut k: usize = j;
        while k < n
            invariant
                j <= k <= n,
                i <= j,
                n == s.len(),
                s == self.intervals@,
                result@ == s.subrange(0, i as int) + seq![m] + s.subrange(j as int, k as int),
            decreases n - k,
        {
            result.push(self.intervals[k]);
            proof {
                assert(s.subrange(j as int, k + 1) =~= s.subrange(j as int, k as int).push(s[k as int]));
            }
            k += 1;
        }
        proof {
            lemma_merge(s, i as int, j as int, from as int, to as int, m);
        }
        self.intervals = result;
    }

    /// Adds one id.
    pub fn enqueue(&mut self, id: i64)
        requires
            old(self).wf(),
        ensures
            final(self).wf(),
            final(self)@ == old(self)@.insert(id as int),
    {
        self.merge_range(id, id);
        proof {
            assert(old(self)@.union(id_range(id as int, id as int)) =~= old(self)@.insert(id as int));
        }
    }

    /// Adds every id of `other`.
    pub fn merge_with(&mut self, other: &QueueWithIntervals)
        requires
            old(self).wf(),
            other.wf(),
        ensures
            final(self).wf(),
            final(self)@ == old(self)@.union(other@),
    {
        let n = other.intervals.len();
        let mut k: usize = 0;
        while k < n
            invariant
                n == other.intervals@.len(),
                k <= n,
                self.wf(),
                other.wf(),
                self@ == old(self)@.union(ranges_set(other.intervals@.take(k as int))),
            decreases n - k,
        {
            let r = other.intervals[k];
            let ghost before = self@;
            self.merge_range(r.from_id, r.to_id);
            proof {
                let t = other.intervals@.take(k as int);
                let t1 = other.intervals@.take(k + 1);
                assert(ranges_set(t1) =~= ranges_set(t).union(id_range(r.from_id as int, r.to_id as int))) by {
                    assert forall|x: int| ranges_set(t1).contains(x) implies ranges_set(t).union(
                        id_range(r.from_id as int, r.to_id as int),
                    ).contains(x) by {
                        let i = choose|i: int| 0 <= i < t1.len() && #[trigger] t1[i].has(x);
                        if i < k {
                            assert(t[i].has(x));
                        }
                    }
                    assert forall|x: int| ranges_set(t).union(id_range(r.from_id as int, r.to_id as int)).contains(
                        x,
                    ) implies ranges_set(t1).contains(x) by {
                        if ranges_set(t).contains(x) {
                            let i = choose|i: int| 0 <= i < t.len() && #[trigger] t[i].has(x);
                            assert(t1[i].has(x));
                        } else {
                            assert(t1[k as int].has(x));
                        }
                    }
                }
                assert(self@ =~= old(self)@.union(ranges_set(t1)));
            }
            k += 1;
        }
        assert(other.intervals@.take(n as int) =~= other.intervals@);
    }

    /// Takes every id of `other` out.
    pub fn remove_all(&mut self, other: &QueueWithIntervals)
        requires
            old(self).wf(),
            other.wf(),
        ensures
            final(self).wf(),
            final(self)@ == old(self)@.difference(other@),
    {
        let ranges = other.get_snapshot();
        let n = ranges.len();
        let mut k: usize = 0;
        proof {
            lemma_ranges_take_ends(ranges@);
            assert(old(self)@.difference(Set::<int>::empty()) =~= old(self)@);
        }
        while k < n
            invariant
                n == ranges@.len(),
                k <= n,
                self.wf(),
                self@ == old(self)@.difference(ranges_set(ranges@.take(k as int))),
            decreases n - k,
        {
            let r = ranges[k];
            let ghost before = self@;
            if r.from_id <= r.to_id {
                let mut id = r.from_id;
                loop
                    invariant_except_break
                        self@ == before.difference(id_range(r.from_id as int, id - 1)),
                    invariant
                        r.from_id <= id <= r.to_id,
                        self.wf(),
                    ensures
                        self.wf(),
                        self@ == before.difference(id_range(r.from_id as int, r.to_id as int)),
                    decreases r.to_id - id,
                {
                    self.remove(id);
                    proof {
                        assert(before.difference(id_range(r.from_id as int, id - 1)).remove(id as int)
                            =~= before.difference(id_range(r.from_id as int, id as int)));
                    }
                    if id == r.to_id {
                        break;
                    }
                    id = id + 1;
                }
            } else {
                assert(id_range(r.from_id as int, r.to_id as int) =~= Set::<int>::empty());
                assert(before.difference(Set::<int>::empty()) =~= before);
            }
            proof {
                lemma_ranges_take_step(ranges@, k as int);
                assert(self@ =~= old(self)@.difference(ranges_set(ranges@.take(k + 1))));
            }
            k += 1;
        }
    }

    /// Whether the id is in the queue.
    pub fn contains(&self, id: i64) -> (r: bool)
        requires
            self.wf(),
        ensures
            r == self@.contains(id as int),
    {
        let n = self.intervals.len();
        let mut k: usize = 0;
        while k < n
            invariant
                n == self.intervals@.len(),
                k <= n,
                forall|i: int| 0 <= i < k ==> !(#[trigger] self.intervals@[i].has(id as int)),
            decreases n - k,
        {
            if self.intervals[k].from_id <= id && id <= self.intervals[k].to_id {
                assert(self.intervals@[k as int].has(id as int));
                return true;
            }
            k += 1;
        }
        false
    }

    pub fn is_empty(&self) -> (r: bool)
        requires
            self.wf(),
        ensures
            r == (self@ == Set::<int>::empty()),
    {
        if self.intervals.len() == 0 {
            proof {
                lemma_empty_ranges(self.intervals@);
            }
            true
        } else {
            proof {
                lemma_first_is_min(self.intervals@);
            }
            false
        }
    }

    /// The smallest id, if the queue holds any.
    pub fn get_min_id(&self) -> (r: Option<i64>)
        requires
            self.wf(),
        ensures
            match r {
                None => self@ == Set::<int>::empty(),
                Some(m) => is_min_of(self@, m as int),
            },
    {
        if self.intervals.len() == 0 {
            proof {
                lemma_empty_ranges(self.intervals@);
            }
            None
        } else {
            proof {
                lemma_first_is_min(self.intervals@);
            }
            Some(self.intervals[0].from_id)
        }
    }

    /// The id `dequeue` would hand out next.
    pub fn peek(&self) -> (r: Option<i64>)
        requires
            self.wf(),
        ensures
            match r {
                None => self@ == Set::<int>::empty(),
                Some(m) => is_min_of(self@, m as int),
            },
    {
        self.get_min_id()
    }

    /// Takes the smallest id out of the queue.
    pub fn dequeue(&mut self) -> (r: Option<i64>)
        requires
            old(self).wf(),
        ensures
            final(self).wf(),
            match r {
                None => old(self)@ == Set::<int>::empty() && final(self)@ == old(self)@,
                Some(m) => is_min_of(old(self)@, m as int) && final(self)@ == old(self)@.remove(
                    m as int,
                ),
            },
    {
        if self.intervals.len() == 0 {
            proof {
                lemma_empty_ranges(self.intervals@);
            }
            return None;
        }
        proof {
            lemma_first_is_min(self.intervals@);
        }
        let ghost s = self.intervals@;
        let first = self.intervals[0];
        let m = first.from_id;
        if first.from_id == first.to_id {
            self.intervals.remove(0);
            proof {
                let r = self.intervals@;
                assert(r =~= s.subrange(1, s.len() as int));
                assert forall|a: int| 0 <= a < r.len() implies #[trigger] r[a] == s[a + 1] by {}
                assert(ranges_well_formed(r)) by {
                    assert forall|a: int, b: int| #![trigger r[a], r[b]] 0 <= a < b < r.len() implies r[a].to_id
                        + 1 < r[b].from_id by {
                        assert(r[a] == s[a + 1] && r[b] == s[b + 1]);
                    }
                }
                assert(ranges_set(r) =~= ranges_set(s).remove(m as int)) by {
                    assert forall|x: int| ranges_set(r).contains(x) implies ranges_set(s).remove(
                        m as int,
                    ).contains(x) by {
                        let a = choose|a: int| 0 <= a < r.len() && #[trigger] r[a].has(x);
                        assert(s[a + 1].has(x));
                        assert(s[0].to_id + 1 < s[a + 1].from_id);
                    }
                    assert forall|x: int| ranges_set(s).remove(m as int).contains(x) implies ranges_set(
                        r,
                    ).contains(x) by {
                        let a = choose|a: int| 0 <= a < s.len() && #[trigger] s[a].has(x);
                        if a > 0 {
                            assert(r[a - 1].has(x));
                        }
                    }
                }
            }
        } else {
            self.intervals.set(0, QueueIndexRange { from_id: first.from_id + 1, to_id: first.to_id });
            proof {
                let r = self.intervals@;
                assert(ranges_well_formed(r)) by {
                    assert forall|a: int, b: int| #![trigger r[a], r[b]] 0 <= a < b < r.len() implies r[a].to_id
                        + 1 < r[b].from_id by {
                        assert(s[a].to_id + 1 < s[b].from_id);
                    }
                    assert forall|a: int| 0 <= a < r.len() implies #[trigger] r[a].from_id <= r[a].to_id by {
                        assert(s[a].from_id <= s[a].to_id);
                    }
                }
                assert(ranges_set(r) =~= ranges_set(s).remove(m as int)) by {
                    assert forall|x: int| ranges_set(r).contains(x) implies ranges_set(s).remove(
                        m as int,
                    ).contains(x) by {
                        let a = choose|a: int| 0 <= a < r.len() && #[trigger] r[a].has(x);
                        if a > 0 {
                            assert(s[a].has(x));
                            assert(s[0].to_id + 1 < s[a].from_id);
                        } else {
                            assert(s[0].has(x));
                        }
                    }
                    assert forall|x: int| ranges_set(s).remove(m as int).contains(x) implies ranges_set(
                        r,
                    ).contains(x) by {
                        let a = choose|a: int| 0 <= a < s.len() && #[trigger] s[a].has(x);
                        assert(r[a].has(x));
                    }
                }
            }
        }
        Some(m)
    }

    /// Takes one id out of the queue; answers whether it was there.
    pub fn remove(&mut self, id: i64) -> (r: bool)
        requires
            old(self).wf(),
        ensures
            final(self).wf(),
            r == old(self)@.contains(id as int),
            final(self)@ == old(self)@.remove(id as int),
    {
        let n = self.intervals.len();
        let mut k: usize = 0;
        while k < n
            invariant
                n == self.intervals@.len(),
                k <= n,
                forall|i: int| 0 <= i < k ==> !(#[trigger] self.intervals@[i].has(id as int)),
            ensures
                k <= n,
                forall|i: int| 0 <= i < k ==> !(#[trigger] self.intervals@[i].has(id as int)),
                k < n ==> self.intervals@[k as int].has(id as int),
            decreases n - k,
        {
            if self.intervals[k].from_id <= id && id <= self.intervals[k].to_id {
                break;
            }
            k += 1;
        }
        if k == n {
            proof {
                assert(!ranges_set(self.intervals@).contains(id as int));
                assert(old(self)@.remove(id as int) =~= old(self)@);
            }
            return false;
        }
        let ghost s = self.intervals@;
        let iv = self.intervals[k];
        assert(s[k as int].has(id as int));
        if iv.from_id == iv.to_id {
            self.intervals.remove(k);
        } else if iv.from_id == id {
            self.intervals.set(k, QueueIndexRange { from_id: id + 1, to_id: iv.to_id });
        } else if iv.to_id == id {
            self.intervals.set(k, QueueIndexRange { from_id: iv.from_id, to_id: id - 1 });
        } else {
            self.intervals.set(k, QueueIndexRange { from_id: iv.from_id, to_id: id - 1 });
            self.intervals.insert(k + 1, QueueIndexRange { from_id: id + 1, to_id: iv.to_id });
        }
        proof {
            lemma_remove_from_range(s, k as int, id as int, self.intervals@);
        }
        true
    }

    /// The stored ranges, sorted and separated.
    pub fn get_snapshot(&self) -> (r: Vec<QueueIndexRange>)
        requires
            self.wf(),
        ensures
            ranges_well_formed(r@),
            ranges_set(r@) == self@,
    {
        self.intervals.clone()
    }

    /// A second queue with the same ids.
    pub fn duplicate(&self) -> (r: Self)
        requires
            self.wf(),
        ensures
            r.wf(),
            r@ == self@,
    {
        QueueWithIntervals { intervals: self.intervals.clone() }
    }

    /// How many ids the queue holds.
    pub fn queue_size(&self) -> (r: usize)
        requires
            self.wf(),
            self@.len() <= usize::MAX,
        ensures
            r == self@.len(),
    {
        proof {
            lemma_total_counts(self.intervals@);
        }
        let ghost s = self.intervals@;
        let n = self.intervals.len();
        let mut acc: usize = 0;
        let mut k: usize = 0;
        while k < n
            invariant
                s == self.intervals@,
                n == s.len(),
                k <= n,
                ranges_well_formed(s),
                acc == ranges_total(s.take(k as int)),
                ranges_total(s) <= usize::MAX,
            decreases n - k,
        {
            let iv = self.intervals[k];
            proof {
                lemma_total_prefix(s, k + 1);
                assert(s.take(k + 1).drop_last() =~= s.take(k as int));
            }
            acc = acc + ((iv.to_id as i128 - iv.from_id as i128 + 1) as usize);
            k += 1;
        }
        assert(s.take(n as int) =~= s);
        acc
    }
}

/// Taking `x` out of the range at `k` that holds it.
proof fn lemma_remove_from_range(s: Seq<QueueIndexRange>, k: int, x: int, r: Seq<QueueIndexRange>)
    requires
        ranges_well_formed(s),
        0 <= k < s.len(),
        s[k].has(x),
        s[k].from_id == s[k].to_id ==> r == s.remove(k),
        s[k].from_id != s[k].to_id && s[k].from_id == x ==> r == s.update(
            k,
            QueueIndexRange { from_id: (x + 1) as i64, to_id: s[k].to_id },
        ),
        s[k].from_id != s[k].to_id && s[k].from_id != x && s[k].to_id == x ==> r == s.update(
            k,
            QueueIndexRange { from_id: s[k].from_id, to_id: (x - 1) as i64 },
        ),
        s[k].from_id != x && s[k].to_id != x ==> r == s.update(
            k,
            QueueIndexRange { from_id: s[k].from_id, to_id: (x - 1) as i64 },
        ).insert(k + 1, QueueIndexRange { from_id: (x + 1) as i64, to_id: s[k].to_id }),
    ensures
        ranges_well_formed(r),
        ranges_set(r) == ranges_set(s).remove(x),
{
    let iv = s[k];
    // `x` belongs to no other range
    assert forall|a: int| 0 <= a < s.len() && a != k implies !(#[trigger] s[a].has(x)) by {
        if a < k {
            assert(s[a].to_id + 1 < s[k].from_id);
        } else {
            assert(s[k].to_id + 1 < s[a].from_id);
        }
    }
    if iv.from_id == iv.to_id {
        assert forall|a: int| 0 <= a < r.len() implies #[trigger] r[a] == (if a < k {
            s[a]
        } else {
            s[a + 1]
        }) by {}
        assert forall|a: int, b: int| #![trigger r[a], r[b]] 0 <= a < b < r.len() implies r[a].to_id
            + 1 < r[b].from_id by {
            let aa = if a < k { a } else { a + 1 };
            let bb = if b < k { b } else { b + 1 };
            assert(r[a] == s[aa] && r[b] == s[bb]);
        }
        assert forall|a: int| 0 <= a < r.len() implies #[trigger] r[a].from_id <= r[a].to_id by {
            let aa = if a < k { a } else { a + 1 };
            assert(r[a] == s[aa]);
        }
        assert(ranges_set(r) =~= ranges_set(s).remove(x)) by {
            assert forall|y: int| ranges_set(r).contains(y) implies ranges_set(s).remove(x).contains(
                y,
            ) by {
                let a = choose|a: int| 0 <= a < r.len() && #[trigger] r[a].has(y);
                let aa = if a < k { a } else { a + 1 };
                assert(s[aa].has(y));
            }
            assert forall|y: int| ranges_set(s).remove(x).contains(y) implies ranges_set(r).contains(
                y,
            ) by {
                let a = choose|a: int| 0 <= a < s.len() && #[trigger] s[a].has(y);
                if a < k {
                    assert(r[a].has(y));
                } else {
                    assert(r[a - 1].has(y));
                }
            }
        }
    } else if iv.from_id == x || iv.to_id == x {
        assert forall|a: int| 0 <= a < r.len() && a != k implies #[trigger] r[a] == s[a] by {}
        assert forall|a: int, b: int| #![trigger r[a], r[b]] 0 <= a < b < r.len() implies r[a].to_id
            + 1 < r[b].from_id by {
            assert(s[a].to_id + 1 < s[b].from_id);
        }
        assert forall|a: int| 0 <= a < r.len() implies #[trigger] r[a].from_id <= r[a].to_id by {
            assert(s[a].from_id <= s[a].to_id);
        }
        assert(ranges_set(r) =~= ranges_set(s).remove(x)) by {
            assert forall|y: int| ranges_set(r).contains(y) implies ranges_set(s).remove(x).contains(
                y,
            ) by {
                let a = choose|a: int| 0 <= a < r.len() && #[trigger] r[a].has(y);
                assert(s[a].has(y));
            }
            assert forall|y: int| ranges_set(s).remove(x).contains(y) implies ranges_set(r).contains(
                y,
            ) by {
                let a = choose|a: int| 0 <= a < s.len() && #[trigger] s[a].has(y);
                assert(r[a].has(y));
            }
        }
    } else {
        let lo = QueueIndexRange { from_id: iv.from_id, to_id: (x - 1) as i64 };
        let hi = QueueIndexRange { from_id: (x + 1) as i64, to_id: iv.to_id };
        assert(r.len() == s.len() + 1);
        assert(r[k] == lo && r[k + 1] == hi);
        assert forall|a: int| 0 <= a < r.len() && a != k && a != k + 1 implies #[trigger] r[a] == (
        if a < k {
            s[a]
        } else {
            s[a - 1]
        }) by {}
        assert forall|a: int| 0 <= a < r.len() implies #[trigger] r[a].from_id <= r[a].to_id by {
            if a < k {
                assert(r[a] == s[a]);
            } else if a > k + 1 {
                assert(r[a] == s[a - 1]);
            }
        }
        assert forall|a: int, b: int| #![trigger r[a], r[b]] 0 <= a < b < r.len() implies r[a].to_id
            + 1 < r[b].from_id by {
            let aa = if a <= k { a } else { a - 1 };
            let bb = if b <= k { b } else { b - 1 };
            if a == k && b == k + 1 {
            } else if aa == bb {
            } else {
                assert(s[aa].to_id + 1 < s[bb].from_id);
                if a != k && a != k + 1 {
                    assert(r[a] == s[aa]);
                }
                if b != k && b != k + 1 {
                    assert(r[b] == s[bb]);
                }
            }
        }
        assert(ranges_set(r) =~= ranges_set(s).remove(x)) by {
            assert forall|y: int| ranges_set(r).contains(y) implies ranges_set(s).remove(x).contains(
                y,
            ) by {
                let a = choose|a: int| 0 <= a < r.len() && #[trigger] r[a].has(y);
                if a == k || a == k + 1 {
                    assert(s[k].has(y));
                } else {
                    let aa = if a < k { a } else { a - 1 };
                    assert(s[aa].has(y));
                }
            }
            assert forall|y: int| ranges_set(s).remove(x).contains(y) implies ranges_set(r).contains(
                y,
            ) by {
                let a = choose|a: int| 0 <= a < s.len() && #[trigger] s[a].has(y);
                if a < k {
                    assert(r[a].has(y));
                } else if a > k {
                    assert(r[a + 1].has(y));
                } else if y < x {
                    assert(r[k].has(y));
                } else {
                    assert(r[k + 1].has(y));
                }
            }
        }
    }
}

/// Ids leave the queue smallest first: after `dequeue` gave `first`, the
/// next `dequeue` gives a larger id.
pub proof fn lemma_dequeue_in_order(s: Set<int>, first: int, second: int)
    requires
        is_min_of(s, first),
        is_min_of(s.remove(first), second),
    ensures
        first < second,
{
    assert(s.contains(second));
}

/// `dequeue` on a queue that holds one id gives that id and leaves the queue
/// empty.
pub proof fn lemma_dequeue_single(id: int, m: int)
    requires
        is_min_of(Set::<int>::empty().insert(id), m),
    ensures
        m == id,
        Set::<int>::empty().insert(id).remove(m) == Set::<int>::empty(),
{
    assert(Set::<int>::empty().insert(id).remove(m) =~= Set::<int>::empty());
}

/// `remove` undoes `enqueue` of an id the queue did not hold, and `enqueue`
/// of an id the queue holds changes nothing.
pub proof fn lemma_remove_undoes_enqueue(s: Set<int>, id: int)
    ensures
        !s.contains(id) ==> s.insert(id).remove(id) == s,
        s.contains(id) ==> s.insert(id) == s,
{
    assert(!s.contains(id) ==> s.insert(id).remove(id) =~= s);
    assert(s.contains(id) ==> s.insert(id) =~= s);
}

/// `remove_all` undoes `merge_with` of a queue that shares no id with this
/// one.
pub proof fn lemma_remove_all_undoes_merge(s: Set<int>, other: Set<int>)
    requires
        s.disjoint(other),
    ensures
        s.union(other).difference(other) == s,
{
    assert(s.union(other).difference(other) =~= s);
}

/// `queue_size` grows by one when `enqueue` adds an id the queue did not
/// hold, and shrinks by one when `dequeue` or `remove` takes one out.
pub proof fn lemma_size_after_enqueue_and_remove(s: Set<int>, id: int)
    requires
        s.finite(),
    ensures
        !s.contains(id) ==> s.insert(id).len() == s.len() + 1,
        s.contains(id) ==> s.remove(id).len() + 1 == s.len(),
{
}

/// A queue restored from the snapshot of another holds the same ids.
pub proof fn lemma_restore_of_snapshot(q: QueueWithIntervals, snapshot: Seq<QueueIndexRange>, restored: QueueWithIntervals)
    requires
        ranges_set(snapshot) == q@,
        restored@ == ranges_set(snapshot),
    ensures
        restored@ == q@,
{
}

} // verus!
