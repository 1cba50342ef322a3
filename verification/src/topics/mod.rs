pub mod atomic_snapshot_id;
pub mod reusable_topics_list;
pub mod topic_inner;
pub mod topic_publishers;
pub mod topic_snapshot;
pub mod topics_list;
pub mod namespace;
