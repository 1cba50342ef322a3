//! What monitoring shows of a queue.
use vstd::prelude::*;

use crate::queue_with_intervals::QueueIndexRange;
use crate::queues::queue::TopicQueueType;

verus! {

pub struct TopicQueueMetrics {
    pub id: String,
    pub queue_type: TopicQueueType,
    pub size: i64,
    pub queue: Vec<QueueIndexRange>,
}

} // verus!
