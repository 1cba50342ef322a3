use std::collections::VecDeque;

use my_sb_node::ui::state::{push_capped, KpiHistory, KpiSample, SidebarSection, KPI_HISTORY_CAP};

fn sample(v: i32) -> KpiSample {
    KpiSample {
        msg_per_sec: v,
        persist_queue: v + 1,
        incoming_kb_per_sec: v + 2,
        outgoing_kb_per_sec: v + 3,
    }
}

#[test]
fn push_capped_drops_the_oldest() {
    let mut buf = VecDeque::new();
    for v in 0..KPI_HISTORY_CAP as i32 {
        push_capped(&mut buf, v);
    }
    assert_eq!(buf.len(), 60);
    assert_eq!(buf.front(), Some(&0));
    push_capped(&mut buf, 100);
    assert_eq!(buf.len(), 60);
    assert_eq!(buf.front(), Some(&1));
    assert_eq!(buf.back(), Some(&100));
}

#[test]
fn kpi_history_keeps_the_last_sixty_samples() {
    let mut h = KpiHistory::default();
    for v in 0..70 {
        h.push(sample(v));
    }
    assert_eq!(h.msg_per_sec.len(), 60);
    assert_eq!(h.msg_per_sec.front(), Some(&10));
    assert_eq!(h.msg_per_sec.back(), Some(&69));
    assert_eq!(h.persist_queue.back(), Some(&70));
    assert_eq!(h.incoming_kb_per_sec.back(), Some(&71));
    assert_eq!(h.outgoing_kb_per_sec.back(), Some(&72));
    h.clear();
    assert!(h.msg_per_sec.is_empty());
    assert!(h.persist_queue.is_empty());
    assert!(h.incoming_kb_per_sec.is_empty());
    assert!(h.outgoing_kb_per_sec.is_empty());
}

#[test]
fn sidebar_starts_on_topics() {
    assert_eq!(SidebarSection::default(), SidebarSection::Topics);
    assert_ne!(SidebarSection::Pages, SidebarSection::Sessions);
}
