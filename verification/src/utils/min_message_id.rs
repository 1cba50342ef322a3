//! The smallest of several optional message ids.
use vstd::prelude::*;

verus! {

/// The smaller of an optional minimum and an optional id.
pub open spec fn min_opt(a: Option<i64>, b: Option<i64>) -> Option<i64> {
    match (a, b) {
        (Some(x), Some(y)) => Some(if y < x { y } else { x }),
        (Some(x), None) => Some(x),
        (None, y) => y,
    }
}

pub struct MinMessageIdCalculator {
    value: Option<i64>,
}

impl View for MinMessageIdCalculator {
    type V = Option<i64>;

    closed spec fn view(&self) -> Option<i64> {
        self.value
    }
}

impl MinMessageIdCalculator {
    pub fn new() -> (r: Self)
        ensures
            r@ == None::<i64>,
    {
        MinMessageIdCalculator { value: None }
    }

    /// Takes one more candidate; `None` changes nothing.
    pub fn add(&mut self, value: Option<i64>)
        ensures
            final(self)@ == min_opt(old(self)@, value),
    {
        if let Some(v) = value {
            match self.value {
                Some(cur) => {
                    if v < cur {
                        self.value = Some(v);
                    }
                },
                None => {
                    self.value = Some(v);
                },
            }
        }
    }

    pub fn get(&self) -> (r: Option<i64>)
        ensures
            r == self@,
    {
        self.value
    }
}

} // verus!
