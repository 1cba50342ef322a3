//! The number of a subscriber of a queue.
use vstd::prelude::*;

verus! {

#[derive(Clone, Copy, Debug, PartialEq, Eq, Structural)]
pub struct SubscriberId {
    pub value: i64,
}

impl SubscriberId {
    pub fn new(value: i64) -> (r: Self)
        ensures
            r.value == value,
    {
        SubscriberId { value }
    }

    pub fn get_value(&self) -> (r: i64)
        ensures
            r == self.value,
    {
        self.value
    }

    pub fn equals_to(&self, other: SubscriberId) -> (r: bool)
        ensures
            r == (self.value == other.value),
    {
        self.value == other.value
    }
}

} // verus!
