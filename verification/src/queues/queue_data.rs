//! The next message of a queue to deliver.
use vstd::prelude::*;

verus! {

#[derive(Debug)]
pub struct NextMessage {
    pub message_id: i64,
    pub attempt_no: i32,
}

} // verus!
