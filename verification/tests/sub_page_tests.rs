use my_sb_node::messages::message::MySbMessageContent;
use my_sb_node::messages::sub_page::{GetMessageResult, SubPage, SubPageId};
use my_sb_node::queue_with_intervals::QueueWithIntervals;

fn create_test_message(id: i64) -> MySbMessageContent {
    MySbMessageContent::new(id, Vec::new(), Vec::new(), 0)
}

#[test]
fn gc_removes_only_messages_below_min_id() {
    let mut sub_page = SubPage::new_as_brand_new(SubPageId::new(0));

    sub_page.add_message(create_test_message(0), false);
    sub_page.add_message(create_test_message(1), false);

    sub_page.gc_messages(1);

    assert!(matches!(sub_page.get_message(0), GetMessageResult::NotLoaded));
    assert!(matches!(sub_page.get_message(1), GetMessageResult::Message(_)));
}

#[test]
fn is_not_ready_to_gc_while_persist_queue_has_items() {
    let mut sub_page = SubPage::new_as_brand_new(SubPageId::new(0));

    sub_page.add_message(create_test_message(10), true);

    assert_eq!(sub_page.is_ready_to_gc(&[]), false);
    assert_eq!(sub_page.is_ready_to_gc(&[SubPageId::new(0)]), false);

    let mut persisted = QueueWithIntervals::new();
    persisted.enqueue(10);
    sub_page.mark_messages_as_persisted(&persisted);

    assert_eq!(sub_page.is_ready_to_gc(&[SubPageId::new(0)]), false);
    assert_eq!(sub_page.is_ready_to_gc(&[]), true);
}

#[test]
fn gc_does_not_remove_pending_persist_message() {
    let mut sub_page = SubPage::new_as_brand_new(SubPageId::new(0));

    sub_page.add_message(create_test_message(0), true);
    sub_page.add_message(create_test_message(1), false);

    sub_page.gc_messages(2);

    assert!(matches!(sub_page.get_message(0), GetMessageResult::Message(_)));
    assert!(matches!(sub_page.get_message(1), GetMessageResult::Message(_)));

    let mut persisted = QueueWithIntervals::new();
    persisted.enqueue(0);
    sub_page.mark_messages_as_persisted(&persisted);

    sub_page.gc_messages(2);

    assert!(matches!(sub_page.get_message(0), GetMessageResult::NotLoaded));
    assert!(matches!(sub_page.get_message(1), GetMessageResult::NotLoaded));
}

#[test]
fn gc_stops_when_first_message_is_protected_by_persist() {
    let mut sub_page = SubPage::new_as_brand_new(SubPageId::new(0));

    sub_page.add_message(create_test_message(0), true);
    sub_page.add_message(create_test_message(1), false);

    sub_page.gc_messages(2);

    assert!(matches!(sub_page.get_message(0), GetMessageResult::Message(_)));
    assert!(matches!(sub_page.get_message(1), GetMessageResult::Message(_)));
}

#[test]
fn get_message_tells_missing_from_collected() {
    let mut sub_page = SubPage::new_at(SubPageId::new(2), 5);
    sub_page.add_message(create_test_message(2000), false);
    sub_page.add_message(create_test_message(2002), false);

    assert!(matches!(sub_page.get_message(2001), GetMessageResult::Missing));
    sub_page.gc_messages(2001);
    assert!(sub_page.get_message(2000).is_garbage_collected());
    assert!(!sub_page.get_message(2001).is_garbage_collected());
    match sub_page.get_message(2002) {
        GetMessageResult::Message(m) => assert_eq!(m.id, 2002),
        _ => panic!("message 2002 should be in memory"),
    }
}

#[test]
fn message_of_another_sub_page_is_skipped() {
    let mut sub_page = SubPage::new_at(SubPageId::new(0), 5);
    sub_page.add_message(create_test_message(1000), true);
    assert!(sub_page.is_empty());
    assert!(!sub_page.has_messages_to_persist());
    assert!(matches!(sub_page.get_message(1000), GetMessageResult::Missing));
}

#[test]
fn messages_to_persist_come_in_id_order() {
    let mut sub_page = SubPage::new_at(SubPageId::new(0), 7);
    sub_page.add_message(create_test_message(5), true);
    sub_page.add_message(create_test_message(3), true);
    sub_page.add_message(create_test_message(4), false);

    let to_persist = sub_page.get_messages_to_persist().unwrap();
    let ids: Vec<i64> = to_persist.iter().map(|m| m.id).collect();
    assert_eq!(ids, vec![3, 5]);
    assert_eq!(sub_page.get_persisted_min_message_id(), Some(3));
    assert_eq!(sub_page.get_last_accessed(), 7);
    assert_eq!(sub_page.get_id().get_value(), 0);

    let mut persisted = QueueWithIntervals::new();
    persisted.enqueue(3);
    persisted.enqueue(5);
    sub_page.mark_messages_as_persisted(&persisted);
    assert!(sub_page.get_messages_to_persist().is_none());
    assert_eq!(sub_page.get_persisted_min_message_id(), None);
}

#[test]
fn sub_page_id_of_message_ids() {
    assert_eq!(SubPageId::from_message_id(0).get_value(), 0);
    assert_eq!(SubPageId::from_message_id(999).get_value(), 0);
    assert_eq!(SubPageId::from_message_id(1000).get_value(), 1);
    assert_eq!(SubPageId::from_message_id(123456).get_value(), 123);
    assert!(SubPageId::new(123).is_my_message_id(123999));
    assert!(!SubPageId::new(123).is_my_message_id(124000));
}
