//! Sub pages that garbage collection must keep.
use vstd::prelude::*;

use crate::messages::sub_page::SubPageId;

verus! {

pub struct ActiveSubPages {
    items: Vec<SubPageId>,
}

impl View for ActiveSubPages {
    type V = Seq<SubPageId>;

    closed spec fn view(&self) -> Seq<SubPageId> {
        self.items@
    }
}

impl ActiveSubPages {
    /// No sub page is listed twice.
    pub open spec fn wf(&self) -> bool {
        forall|i: int, j: int|
            #![trigger self@[i], self@[j]]
            0 <= i < j < self@.len() ==> self@[i].value != self@[j].value
    }

    pub fn new() -> (r: Self)
        ensures
            r.wf(),
            r@ == Seq::<SubPageId>::empty(),
    {
        ActiveSubPages { items: Vec::new() }
    }

    /// Lists the sub page unless it is listed already.
    pub fn add_if_not_exists(&mut self, sub_page_id: SubPageId)
        requires
            old(self).wf(),
        ensures
            final(self).wf(),
            (exists|i: int| 0 <= i < old(self)@.len() && old(self)@[i].value == sub_page_id.value)
                ==> final(self)@ == old(self)@,
            !(exists|i: int| 0 <= i < old(self)@.len() && old(self)@[i].value == sub_page_id.value)
                ==> final(self)@ == old(self)@.push(sub_page_id),
    {
        let n = self.items.len();
        let mut i: usize = 0;
        while i < n
            invariant
                n == self.items@.len(),
                i <= n,
                old(self).wf(),
                self.items@ == old(self).items@,
                forall|j: int| 0 <= j < i ==> (#[trigger] self.items@[j]).value != sub_page_id.value,
            decreases n - i,
        {
            if self.items[i].value == sub_page_id.value {
                return;
            }
            i += 1;
        }
        self.items.push(sub_page_id);
        proof {
            let t = self.items@;
            assert forall|a: int, b: int| #![trigger t[a], t[b]] 0 <= a < b < t.len() implies t[a].value
                != t[b].value by {
                if b < n {
                    assert(old(self)@[a].value != old(self)@[b].value);
                } else {
                    assert(t[a] == old(self)@[a]);
                }
            }
        }
    }

    pub fn as_slice(&self) -> (r: &[SubPageId])
        ensures
            r@ == self@,
    {
        self.items.as_slice()
    }
}

} // verus!
