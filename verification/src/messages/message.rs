//! A published message as the broker keeps it.
use std::sync::Arc;
use vstd::prelude::*;

verus! {

/// One header of a message.
pub struct MessageHeader {
    pub key: String,
    pub value: String,
}

pub struct MySbMessageContent {
    pub id: i64,
    pub content: Vec<u8>,
    /// Moment of publishing, in microseconds since the Unix epoch.
    pub time: i64,
    pub headers: Vec<MessageHeader>,
}

impl MySbMessageContent {
    pub fn new(id: i64, content: Vec<u8>, headers: Vec<MessageHeader>, time: i64) -> (r: Self)
        ensures
            r.id == id,
            r.content == content,
            r.headers == headers,
            r.time == time,
    {
        MySbMessageContent { id, content, time, headers }
    }
}

/// A message as a publisher sends it.
pub struct MessageToPublish {
    pub headers: Vec<MessageHeader>,
    pub content: Vec<u8>,
}

/// `Arc::clone`: a second handle to the same value.
#[verifier::external_body]
pub fn arc_clone<T>(a: &Arc<T>) -> (r: Arc<T>)
    ensures
        r == *a,
{
    Arc::clone(a)
}

} // verus!
