//! The broker's state: message queues, topics, sessions and the pages that
//! hold published messages.
use vstd::prelude::*;

pub mod messages;
pub mod queue_with_intervals;
pub mod queues;
pub mod sessions;
pub mod topics;
pub mod ui;
pub mod utils;

verus! {

} // verus!
