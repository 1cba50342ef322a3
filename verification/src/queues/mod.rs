pub mod delivery;
pub mod delivery_attempts;
pub mod delivery_bucket;
pub mod queue;
pub mod queue_data;
pub mod queue_id;
pub mod queue_metrics;
pub mod queues_list;
pub mod subscriber_id;
