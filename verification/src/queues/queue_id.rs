//! The name of a queue.
use vstd::prelude::*;

verus! {

#[derive(Debug, Clone, Eq, Hash)]
pub struct QueueId {
    value: String,
}

impl View for QueueId {
    type V = Seq<char>;

    closed spec fn view(&self) -> Seq<char> {
        self.value@
    }
}

/// Two ids are equal when their names are.
impl PartialEq for QueueId {
    fn eq(&self, other: &Self) -> (r: bool) {
        self.value == other.value
    }
}

impl vstd::std_specs::cmp::PartialEqSpecImpl for QueueId {
    open spec fn obeys_eq_spec() -> bool {
        true
    }

    open spec fn eq_spec(&self, other: &Self) -> bool {
        self@ == other@
    }
}

impl QueueId {
    pub fn new(value: String) -> (r: Self)
        ensures
            r@ == value@,
    {
        QueueId { value }
    }

    pub fn as_str(&self) -> (r: &str)
        ensures
            r@ == self@,
    {
        self.value.as_str()
    }

    pub fn to_string(&self) -> (r: String)
        ensures
            r@ == self@,
    {
        self.value.clone()
    }

    /// A second id with the same name.
    pub fn duplicate(&self) -> (r: Self)
        ensures
            r@ == self@,
    {
        QueueId { value: self.value.clone() }
    }

    /// Whether the name is `other`.
    pub fn equals_str(&self, other: &str) -> (r: bool)
        ensures
            r == (self@ == other@),
    {
        let other: String = other.to_owned();
        self.value == other
    }
}

} // verus!
