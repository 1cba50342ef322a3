//! State of the monitoring page: which sidebar section is open and the
//! short rolling history of the key figures drawn in the status charts.
use std::collections::VecDeque;
use vstd::prelude::*;

verus! {

/// How many samples each KPI series keeps.
pub const KPI_HISTORY_CAP: usize = 60;

/// The series after `value` was appended: when it already holds
/// `KPI_HISTORY_CAP` samples or more, its oldest sample is dropped first.
pub open spec fn capped_push(s: Seq<i32>, value: i32) -> Seq<i32> {
    if s.len() >= KPI_HISTORY_CAP {
        s.subrange(1, s.len() as int).push(value)
    } else {
        s.push(value)
    }
}

/// The section shown in the sidebar; `Topics` is the one shown first.
#[derive(Clone, Copy, Debug, PartialEq, Eq, Structural)]
pub enum SidebarSection {
    Topics,
    Sessions,
    Pages,
}

impl Default for SidebarSection {
    fn default() -> (section: Self)
        ensures
            section == SidebarSection::Topics,
    {
        SidebarSection::Topics
    }
}

/// One reading of the four key figures.
pub struct KpiSample {
    pub msg_per_sec: i32,
    pub persist_queue: i32,
    pub incoming_kb_per_sec: i32,
    pub outgoing_kb_per_sec: i32,
}

/// The last readings of each key figure, oldest first.
pub struct KpiHistory {
    pub msg_per_sec: VecDeque<i32>,
    pub persist_queue: VecDeque<i32>,
    pub incoming_kb_per_sec: VecDeque<i32>,
    pub outgoing_kb_per_sec: VecDeque<i32>,
}

impl Default for KpiHistory {
    fn default() -> (history: Self)
        ensures
            history.is_empty(),
    {
        KpiHistory {
            msg_per_sec: VecDeque::new(),
            persist_queue: VecDeque::new(),
            incoming_kb_per_sec: VecDeque::new(),
            outgoing_kb_per_sec: VecDeque::new(),
        }
    }
}

impl KpiHistory {
    /// Every series is empty.
    pub open spec fn is_empty(&self) -> bool {
        &&& self.msg_per_sec@ == Seq::<i32>::empty()
        &&& self.persist_queue@ == Seq::<i32>::empty()
        &&& self.incoming_kb_per_sec@ == Seq::<i32>::empty()
        &&& self.outgoing_kb_per_sec@ == Seq::<i32>::empty()
    }

    /// No series holds more than `KPI_HISTORY_CAP` samples.
    pub open spec fn within_cap(&self) -> bool {
        &&& self.msg_per_sec@.len() <= KPI_HISTORY_CAP
        &&& self.persist_queue@.len() <= KPI_HISTORY_CAP
        &&& self.incoming_kb_per_sec@.len() <= KPI_HISTORY_CAP
        &&& self.outgoing_kb_per_sec@.len() <= KPI_HISTORY_CAP
    }

    /// Appends each figure of `sample` to its own series, keeping the cap.
    pub fn push(&mut self, sample: KpiSample)
        ensures
            final(self).msg_per_sec@ == capped_push(old(self).msg_per_sec@, sample.msg_per_sec),
            final(self).persist_queue@ == capped_push(
                old(self).persist_queue@,
                sample.persist_queue,
            ),
            final(self).incoming_kb_per_sec@ == capped_push(
                old(self).incoming_kb_per_sec@,
                sample.incoming_kb_per_sec,
            ),
            final(self).outgoing_kb_per_sec@ == capped_push(
                old(self).outgoing_kb_per_sec@,
                sample.outgoing_kb_per_sec,
            ),
            old(self).within_cap() ==> final(self).within_cap(),
    {
        push_capped(&mut self.msg_per_sec, sample.msg_per_sec);
        push_capped(&mut self.persist_queue, sample.persist_queue);
        push_capped(&mut self.incoming_kb_per_sec, sample.incoming_kb_per_sec);
        push_capped(&mut self.outgoing_kb_per_sec, sample.outgoing_kb_per_sec);
    }

    /// Forgets every sample.
    pub fn clear(&mut self)
        ensures
            final(self).is_empty(),
    {
        self.msg_per_sec.clear();
        self.persist_queue.clear();
        self.incoming_kb_per_sec.clear();
        self.outgoing_kb_per_sec.clear();
    }
}

/// Appends `value` to `buf`, dropping the oldest sample first when `buf`
/// already holds `KPI_HISTORY_CAP` samples or more.
pub fn push_capped(buf: &mut VecDeque<i32>, value: i32)
    ensures
        final(buf)@ == capped_push(old(buf)@, value),
{
    if buf.len() >= KPI_HISTORY_CAP {
        buf.pop_front();
    }
    buf.push_back(value);
}

/// A capped push never lets a series that was within the cap grow past
/// it, and the newest sample always ends up last.
pub proof fn lemma_capped_push_keeps_cap(s: Seq<i32>, value: i32)
    requires
        s.len() <= KPI_HISTORY_CAP,
    ensures
        capped_push(s, value).len() <= KPI_HISTORY_CAP,
        capped_push(s, value).last() == value,
        capped_push(s, value).len() == if s.len() == KPI_HISTORY_CAP {
            s.len()
        } else {
            s.len() + 1
        },
{
}

} // verus!
