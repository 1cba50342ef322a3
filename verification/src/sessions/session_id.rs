//! The number the broker gives each connection.
use vstd::prelude::*;

verus! {

#[derive(Clone, Copy, Debug, PartialEq, Eq, Structural)]
pub struct SessionId {
    pub value: i64,
}

impl SessionId {
    pub fn new(value: i64) -> (r: Self)
        ensures
            r.value == value,
    {
        SessionId { value }
    }

    pub fn get_value(&self) -> (r: i64)
        ensures
            r == self.value,
    {
        self.value
    }

    pub fn as_ref(&self) -> (r: &i64)
        ensures
            *r == self.value,
    {
        &self.value
    }
}

} // verus!
