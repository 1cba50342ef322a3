//! Messages of one subscriber waiting to be fetched by an HTTP client.
use vstd::prelude::*;

use crate::queues::queue_id::QueueId;
use crate::queues::subscriber_id::SubscriberId;

verus! {

pub struct HttpDeliveryPackage<TMessage> {
    pub topic_id: String,
    pub queue_id: QueueId,
    pub subscriber_id: SubscriberId,
    pub messages: Vec<TMessage>,
}

} // verus!
