//! A list of topics kept between uses, tagged with the snapshot it was
//! built from.
use vstd::prelude::*;
use vstd::std_specs::iter::IteratorSpec;

verus! {

pub struct ReusableTopicsList<T> {
    data: Vec<T>,
    snapshot_id: Option<usize>,
}

impl<T> View for ReusableTopicsList<T> {
    type V = Seq<T>;

    closed spec fn view(&self) -> Seq<T> {
        self.data@
    }
}

/// `Vec::shrink_to`: gives back capacity; the elements stay.
#[verifier::external_body]
fn vec_shrink_to<T>(v: &mut Vec<T>, capacity: usize)
    ensures
        final(v)@ == old(v)@,
{
    v.shrink_to(capacity)
}

impl<T> ReusableTopicsList<T> {
    pub closed spec fn snapshot(&self) -> Option<usize> {
        self.snapshot_id
    }

    pub fn new() -> (r: Self)
        ensures
            r@ == Seq::<T>::empty(),
            r.snapshot() == None::<usize>,
    {
        ReusableTopicsList { data: Vec::new(), snapshot_id: None }
    }

    /// The list was built from the snapshot `value`.
    pub fn check_with_snapshot_id(&self, value: usize) -> (r: bool)
        ensures
            r == (self.snapshot() == Some(value)),
    {
        match self.snapshot_id {
            Some(snapshot_id) => snapshot_id == value,
            None => false,
        }
    }

    /// Empties the list, keeping room for about `capacity` topics.
    pub fn clean(&mut self, capacity: usize)
        ensures
            final(self)@ == Seq::<T>::empty(),
            final(self).snapshot() == old(self).snapshot(),
    {
        self.data.clear();
        vec_shrink_to(&mut self.data, capacity);
    }

    pub fn push(&mut self, topic: T)
        ensures
            final(self)@ == old(self)@.push(topic),
            final(self).snapshot() == old(self).snapshot(),
    {
        self.data.push(topic);
    }

    pub fn update_snapshot_id(&mut self, snapshot_id: usize)
        ensures
            final(self)@ == old(self)@,
            final(self).snapshot() == Some(snapshot_id),
    {
        self.snapshot_id = Some(snapshot_id);
    }

    pub fn len(&self) -> (r: usize)
        ensures
            r == self@.len(),
    {
        self.data.len()
    }

    pub fn iter(&self) -> (r: std::slice::Iter<'_, T>)
        ensures
            r.remaining() == self@.as_ref(),
    {
        let sl = self.data.as_slice();
        let r = sl.iter();
        proof {
            vstd::std_specs::slice::axiom_spec_slice_iter(sl);
        }
        r
    }
}

} // verus!
