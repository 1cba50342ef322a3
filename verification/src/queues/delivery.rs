//! One step of delivering a queue: what to hand to a subscriber next, or
//! which sub page has to be loaded first. The delivery itself, to a
//! subscriber that is ready, is done by the caller, step after step.
use vstd::prelude::*;

use crate::messages::message::MySbMessageContent;
use crate::messages::pages_list::{has_page, page_index, MessagesPageList};
use crate::messages::sub_page::{sub_page_of, SubPageId};
use crate::queue_with_intervals::is_min_of;
use crate::messages::sub_page::SubPage;
use crate::queues::queue::{
    compile_plan, delivered_as, lemma_compile_takes_smallest_first, CompileSubpageResult, TopicQueue,
};

verus! {

/// What the next step of a delivery is.
pub enum DeliveryStep<'s> {
    /// The queue is empty: delivery is done.
    Done,
    /// The sub page of the next id is not in memory; it has to be loaded
    /// before delivery goes on.
    LoadSubPage(SubPageId),
    /// These messages go to the subscriber; then delivery goes on.
    Deliver(Vec<(i32, &'s MySbMessageContent)>),
    /// These messages go to the subscriber; then the sub page has to be
    /// loaded again, a message of it was garbage collected.
    DeliverThenLoad(Vec<(i32, &'s MySbMessageContent)>, SubPageId),
    /// Only ids the sub page never held were taken out; delivery goes on.
    Skipped,
}

impl TopicQueue {
    /// Takes out of the queue what goes to a subscriber next: the messages
    /// of the sub page of the smallest id (see `compile_plan`), when that
    /// sub page is in memory.
    pub fn next_delivery_step<'s>(
        &mut self,
        pages: &'s MessagesPageList,
        max_delivery_size: usize,
    ) -> (r: DeliveryStep<'s>)
        requires
            old(self).wf(),
            pages.wf(),
        ensures
            final(self).wf(),
            final(self).delivery_attempts == old(self).delivery_attempts,
            final(self).topic_id == old(self).topic_id,
            final(self).queue_id == old(self).queue_id,
            final(self).queue_type == old(self).queue_type,
            final(self).subscribers == old(self).subscribers,
            old(self).queue@ == Set::<int>::empty() ==> r is Done && final(self).queue@ == old(self).queue@,
            old(self).queue@ != Set::<int>::empty() ==> exists|m: int|
                #![trigger is_min_of(old(self).queue@, m)]
                is_min_of(old(self).queue@, m) && ({
                    let sid = sub_page_of(m) as i64;
                    let p = pages.pages();
                    &&& !has_page(p, sid) ==> r == DeliveryStep::LoadSubPage(SubPageId { value: sid })
                        && final(self).queue@ == old(self).queue@
                    &&& has_page(p, sid) ==> {
                        let page = p[page_index(p, sid)];
                        let plan = compile_plan(
                            old(self).queue@,
                            page,
                            sid as int,
                            max_delivery_size as int,
                            0,
                        );
                        &&& final(self).queue@ == plan.0
                        &&& match r {
                            DeliveryStep::Deliver(v) => !plan.2 && plan.1.len() > 0 && delivered_as(
                                v@,
                                plan.1,
                                page,
                                old(self).delivery_attempts@,
                            ),
                            DeliveryStep::DeliverThenLoad(v, s) => plan.2 && plan.1.len() > 0
                                && s.value == sid && delivered_as(
                                v@,
                                plan.1,
                                page,
                                old(self).delivery_attempts@,
                            ),
                            DeliveryStep::LoadSubPage(s) => plan.2 && plan.1.len() == 0 && s.value
                                == sid,
                            DeliveryStep::Skipped => !plan.2 && plan.1.len() == 0,
                            DeliveryStep::Done => false,
                        }
                    }
                }),
    {
        let message_id = match self.queue.peek() {
            Some(m) => m,
            None => {
                return DeliveryStep::Done;
            },
        };
        let sub_page_id = SubPageId::from_message_id(message_id);
        proof {
            crate::messages::pages_list::lemma_sub_page_in_range(message_id as int);
        }
        let sub_page = match pages.get(sub_page_id) {
            Some(p) => p,
            None => {
                return DeliveryStep::LoadSubPage(sub_page_id);
            },
        };
        assert(sub_page.wf());
        match self.compile_sub_page(sub_page_id, max_delivery_size, sub_page) {
            CompileSubpageResult::OkMessages(v) => DeliveryStep::Deliver(v),
            CompileSubpageResult::OkWithGcFound(v) => DeliveryStep::DeliverThenLoad(v, sub_page_id),
            CompileSubpageResult::GcFound => DeliveryStep::LoadSubPage(sub_page_id),
            CompileSubpageResult::Empty => DeliveryStep::Skipped,
        }
    }
}

/// Delivery always gets on: a step that does not ask for a sub page to be
/// loaded takes at least one id out of the queue, so the steps of a
/// delivery come to an end.
pub proof fn lemma_delivery_step_progresses(q: Set<int>, page: SubPage, m: int, max: int)
    requires
        q.finite(),
        is_min_of(q, m),
        max >= 0,
        !compile_plan(q, page, sub_page_of(m), max, 0).2,
    ensures
        compile_plan(q, page, sub_page_of(m), max, 0).0.len() < q.len(),
{
    let sid = sub_page_of(m);
    let c = choose|c: int| is_min_of(q, c);
    assert(c == m) by {
        assert(q.contains(c) && q.contains(m));
    }
    lemma_compile_takes_smallest_first(q.remove(m), page, sid, max, 0);
    let size2 = 0 + crate::messages::sub_page::find_message(page.messages(), m).content.len();
    lemma_compile_takes_smallest_first(q.remove(m), page, sid, max, size2);
    let plan = compile_plan(q, page, sid, max, 0);
    assert(plan.0.subset_of(q.remove(m)));
    vstd::set_lib::lemma_len_subset(plan.0, q.remove(m));
}

} // verus!
