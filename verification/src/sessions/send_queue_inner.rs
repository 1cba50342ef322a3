//! What an HTTP session decides about its waiting packages and the client
//! that may be waiting for one (a long poll). The waiting itself is done by
//! the caller; this side keeps when it started and says when to hand a
//! package over or let the client go.
use vstd::prelude::*;

use crate::sessions::http_delivery_package::HttpDeliveryPackage;
use crate::sessions::http_send_queue::HttpSendQueue;
use crate::utils::clock::now_micros;

verus! {

pub struct SendQueueInner<M> {
    pub queue: HttpSendQueue<M>,
    /// Moment (microseconds since the Unix epoch) a client started waiting,
    /// while one waits.
    pub task_completion: Option<i64>,
}

impl<M> SendQueueInner<M> {
    pub open spec fn wf(&self) -> bool {
        self.queue.wf()
    }

    pub fn new() -> (r: Self)
        ensures
            r.wf(),
            r.queue@.len() == 0,
            r.task_completion is None,
    {
        SendQueueInner { queue: HttpSendQueue::new(), task_completion: None }
    }

    /// When a client waits and a package is there: the oldest package, to
    /// hand to it; the client no longer waits. Otherwise nothing changes.
    pub fn deliver_message(&mut self) -> (r: Option<HttpDeliveryPackage<M>>)
        requires
            old(self).wf(),
        ensures
            final(self).wf(),
            (old(self).task_completion is None || old(self).queue@.len() == 0) ==> r is None
                && final(self).queue@ == old(self).queue@ && final(self).task_completion == old(self).task_completion,
            (old(self).task_completion is Some && old(self).queue@.len() > 0) ==> r == Some(
                old(self).queue@[0],
            ) && final(self).queue@ == old(self).queue@.drop_first() && final(self).task_completion
                is None,
    {
        if self.task_completion.is_none() {
            return None;
        }
        if let Some(package) = self.queue.get_next_package() {
            self.task_completion = None;
            return Some(package);
        }
        None
    }

    /// A client starts waiting now.
    pub fn engage_awaiter(&mut self)
        requires
            old(self).wf(),
            old(self).task_completion is None,
        ensures
            final(self).wf(),
            final(self).task_completion is Some,
            final(self).queue@ == old(self).queue@,
    {
        let now = now_micros();
        self.engage_awaiter_at(now);
    }

    /// A client starts waiting at `now`. Only one client waits at a time.
    pub fn engage_awaiter_at(&mut self, now: i64)
        requires
            old(self).wf(),
            old(self).task_completion is None,
        ensures
            final(self).wf(),
            final(self).task_completion == Some(now),
            final(self).queue@ == old(self).queue@,
    {
        self.task_completion = Some(now);
    }

    /// The waiting client is let go, whatever the time it waited; answers
    /// when it started waiting, if one waited.
    pub fn ping_awaiter(&mut self) -> (r: Option<i64>)
        requires
            old(self).wf(),
        ensures
            final(self).wf(),
            r == old(self).task_completion,
            final(self).task_completion is None,
            final(self).queue@ == old(self).queue@,
    {
        self.task_completion.take()
    }

    /// The oldest package if one waits; otherwise a client starts waiting at
    /// `now`.
    pub fn take_package_or_engage(&mut self, now: i64) -> (r: Option<HttpDeliveryPackage<M>>)
        requires
            old(self).wf(),
            old(self).queue@.len() > 0 || old(self).task_completion is None,
        ensures
            final(self).wf(),
            old(self).queue@.len() > 0 ==> r == Some(old(self).queue@[0]) && final(self).queue@
                == old(self).queue@.drop_first() && final(self).task_completion == old(self).task_completion,
            old(self).queue@.len() == 0 ==> r is None && final(self).queue@ == old(self).queue@
                && final(self).task_completion == Some(now),
    {
        if let Some(next_package) = self.queue.get_next_package() {
            return Some(next_package);
        }
        self.engage_awaiter_at(now);
        None
    }
}

} // verus!
