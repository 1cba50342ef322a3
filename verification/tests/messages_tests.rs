use my_sb_node::messages::active_sub_pages::ActiveSubPages;
use my_sb_node::messages::message::MySbMessageContent;
use my_sb_node::messages::pages_list::MessagesPageList;
use my_sb_node::messages::sub_page::{GetMessageResult, SubPageId};
use my_sb_node::queue_with_intervals::QueueWithIntervals;
use my_sb_node::utils::min_message_id::MinMessageIdCalculator;

fn msg(id: i64) -> MySbMessageContent {
    MySbMessageContent::new(id, vec![id as u8], Vec::new(), 1)
}

#[test]
fn pages_list_keeps_messages_in_their_sub_pages() {
    let mut pages = MessagesPageList::new();
    pages.add_message(msg(5), true, 10);
    pages.add_message(msg(1500), false, 11);
    pages.add_message(msg(7), true, 12);

    let p0 = pages.get(SubPageId::new(0)).unwrap();
    assert!(matches!(p0.get_message(5), GetMessageResult::Message(_)));
    assert_eq!(p0.get_last_accessed(), 12);
    assert!(pages.get(SubPageId::new(1)).is_some());
    assert!(pages.get(SubPageId::new(2)).is_none());
    assert_eq!(pages.get_persisted_min_message_id(), Some(5));

    let mut plan = Vec::new();
    pages.get_messages_to_persist(&mut plan);
    assert_eq!(plan.len(), 1);
    assert_eq!(plan[0].0.get_value(), 0);
    let ids: Vec<i64> = plan[0].1.iter().map(|m| m.id).collect();
    assert_eq!(ids, vec![5, 7]);

    let mut persisted = QueueWithIntervals::new();
    persisted.enqueue(5);
    pages.mark_messages_as_persisted(SubPageId::new(0), &persisted);
    assert_eq!(pages.get_persisted_min_message_id(), Some(7));

    pages.gc_messages(1000);
    let p0 = pages.get(SubPageId::new(0)).unwrap();
    assert!(p0.get_message(5).is_garbage_collected());
    assert!(matches!(p0.get_message(7), GetMessageResult::Message(_)));

    let page = pages.get_or_create_mut(SubPageId::new(4), 99);
    assert_eq!(page.get_last_accessed(), 99);
    assert!(page.is_empty());
}

#[test]
fn active_sub_pages_have_no_duplicates() {
    let mut a = ActiveSubPages::new();
    a.add_if_not_exists(SubPageId::new(3));
    a.add_if_not_exists(SubPageId::new(1));
    a.add_if_not_exists(SubPageId::new(3));
    let values: Vec<i64> = a.as_slice().iter().map(|p| p.get_value()).collect();
    assert_eq!(values, vec![3, 1]);
}

#[test]
fn min_message_id_calculator_keeps_the_smallest() {
    let mut c = MinMessageIdCalculator::new();
    assert_eq!(c.get(), None);
    c.add(None);
    assert_eq!(c.get(), None);
    c.add(Some(10));
    c.add(Some(4));
    c.add(None);
    c.add(Some(8));
    assert_eq!(c.get(), Some(4));
}

#[test]
fn sub_page_timestamps_update() {
    let mut pages = MessagesPageList::new();
    let page = pages.get_or_create_mut(SubPageId::new(0), 5);
    page.update_last_accessed(9);
    assert_eq!(pages.get(SubPageId::new(0)).unwrap().get_last_accessed(), 9);
}
