use std::collections::HashSet;
use my_sb_node::messages::message::MySbMessageContent;
use my_sb_node::messages::sub_page::{SubPage, SubPageId};
use my_sb_node::queue_with_intervals::QueueWithIntervals;
use my_sb_node::queues::delivery_attempts::DeliveryAttempts;
use my_sb_node::queues::delivery_bucket::DeliveryBucket;
use my_sb_node::queues::queue::{CompileSubpageResult, TopicQueue, TopicQueueType};
use my_sb_node::queues::queue_id::QueueId;
use my_sb_node::queues::queues_list::TopicQueuesList;
use my_sb_node::queues::subscriber_id::SubscriberId;

fn ids(list: &[i64]) -> QueueWithIntervals {
    let mut q = QueueWithIntervals::new();
    for id in list {
        q.enqueue(*id);
    }
    q
}

#[test]
fn delivery_attempts_count_failures() {
    let mut a = DeliveryAttempts::new();
    assert_eq!(a.get(5), 0);
    a.add(5);
    assert_eq!(a.get(5), 0);
    a.add(5);
    a.add(5);
    assert_eq!(a.get(5), 2);
    a.add(6);
    assert_eq!(a.get(6), 0);
    a.reset(5);
    assert_eq!(a.get(5), 0);
    assert_eq!(a.get(6), 0);
}

#[test]
fn queue_id_and_subscriber_id() {
    let id = QueueId::new("queue-1".to_string());
    assert_eq!(id.as_str(), "queue-1");
    assert_eq!(id.to_string(), "queue-1".to_string());
    assert!(id.equals_str("queue-1"));
    assert!(!id.equals_str("queue-2"));
    assert_eq!(id.duplicate().as_str(), "queue-1");
    let s = SubscriberId::new(4);
    assert_eq!(s.get_value(), 4);
    assert!(s.equals_to(SubscriberId::new(4)));
    assert!(!s.equals_to(SubscriberId::new(5)));
}

#[test]
fn delivery_bucket_moves_confirmed_ids() {
    let mut bucket = DeliveryBucket::new(ids(&[1, 2, 3]));
    bucket.confirmed(&ids(&[2]));
    assert!(bucket.confirmed.contains(2));
    assert!(!bucket.to_be_confirmed.contains(2));
    assert!(bucket.to_be_confirmed.contains(1));
    assert!(bucket.to_be_confirmed.contains(3));
}

#[test]
fn queue_confirmations_update_queue_and_attempts() {
    let mut q = TopicQueue::new("t".to_string(), QueueId::new("q".to_string()), TopicQueueType::Permanent);
    assert_eq!(q.get_key(), "q");
    q.enqueue_messages(&ids(&[1, 2, 3]));
    assert_eq!(q.get_queue_size(), 3);
    assert_eq!(q.get_min_msg_id(), Some(1));

    assert_eq!(q.queue.dequeue(), Some(1));
    assert_eq!(q.queue.dequeue(), Some(2));
    q.confirm_non_delivered(&ids(&[1, 2]));
    assert_eq!(q.get_queue_size(), 3);
    assert_eq!(q.delivery_attempts.get(1), 0);
    q.confirm_non_delivered(&ids(&[1]));
    assert_eq!(q.delivery_attempts.get(1), 1);

    q.confirm_delivered(&ids(&[1]));
    assert_eq!(q.delivery_attempts.get(1), 0);
    assert_eq!(q.delivery_attempts.get(2), 0);

    q.set_message_id(10, 12);
    assert_eq!(q.get_queue_size(), 3);
    assert_eq!(q.get_min_msg_id(), Some(10));
}

#[test]
fn queue_type_changes_and_persistence() {
    let mut q = TopicQueue::new("t".to_string(), QueueId::new("q".to_string()), TopicQueueType::DeleteOnDisconnect);
    assert!(!q.is_permanent());
    assert!(q.get_snapshot_to_persist().is_none());
    assert!(q.queue_type_is_about_to_change(TopicQueueType::Permanent));
    assert!(!q.queue_type_is_about_to_change(TopicQueueType::DeleteOnDisconnect));
    q.update_queue_type(TopicQueueType::PermanentWithSingleConnection);
    assert!(q.is_permanent());
    q.enqueue_messages(&ids(&[4, 5]));
    let snapshot = q.get_snapshot_to_persist().unwrap();
    assert_eq!(snapshot.queue_id, "q");
    assert_eq!(snapshot.queue_type, TopicQueueType::PermanentWithSingleConnection);
    assert_eq!(snapshot.ranges.len(), 1);
    assert_eq!((snapshot.ranges[0].from_id, snapshot.ranges[0].to_id), (4, 5));
}

fn page_with(ids: &[i64], content_len: usize) -> SubPage {
    let mut page = SubPage::new_at(SubPageId::new(0), 0);
    for id in ids {
        page.add_message(MySbMessageContent::new(*id, vec![0u8; content_len], Vec::new(), 0), false);
    }
    page
}

#[test]
fn compile_sub_page_takes_smallest_first_within_size() {
    let page = page_with(&[1, 2, 3, 4], 10);
    let mut q = TopicQueue::new("t".to_string(), QueueId::new("q".to_string()), TopicQueueType::Permanent);
    q.enqueue_messages(&ids(&[1, 2, 3, 4, 2000]));
    q.delivery_attempts.add(2);
    q.delivery_attempts.add(2);

    match q.compile_sub_page(SubPageId::new(0), 15, &page) {
        CompileSubpageResult::OkMessages(v) => {
            let taken: Vec<(i32, i64)> = v.iter().map(|(a, m)| (*a, m.id)).collect();
            assert_eq!(taken, vec![(0, 1), (1, 2)]);
        }
        _ => panic!("messages should be taken"),
    }
    assert!(!q.queue.contains(1));
    assert!(!q.queue.contains(2));
    assert!(q.queue.contains(3));

    match q.compile_sub_page(SubPageId::new(0), 1000, &page) {
        CompileSubpageResult::OkMessages(v) => assert_eq!(v.len(), 2),
        _ => panic!("messages should be taken"),
    }
    // Only the id of another sub page is left.
    assert!(matches!(q.compile_sub_page(SubPageId::new(0), 1000, &page), CompileSubpageResult::Empty));
    assert!(q.queue.contains(2000));
}

#[test]
fn compile_sub_page_reports_collected_messages() {
    let mut page = page_with(&[1, 2, 3], 1);
    page.gc_messages(2);
    let mut q = TopicQueue::new("t".to_string(), QueueId::new("q".to_string()), TopicQueueType::Permanent);
    q.enqueue_messages(&ids(&[1, 2]));
    assert!(matches!(q.compile_sub_page(SubPageId::new(0), 1000, &page), CompileSubpageResult::GcFound));
    assert!(q.queue.contains(1));

    let mut q2 = TopicQueue::new("t".to_string(), QueueId::new("q".to_string()), TopicQueueType::Permanent);
    q2.enqueue_messages(&ids(&[0, 1]));
    let page0 = {
        let mut p = SubPage::new_at(SubPageId::new(0), 0);
        p.add_message(MySbMessageContent::new(0, vec![1], Vec::new(), 0), false);
        p.add_message(MySbMessageContent::new(1, vec![1], Vec::new(), 0), false);
        p.add_message(MySbMessageContent::new(2, vec![1], Vec::new(), 0), false);
        p.gc_messages(1);
        p
    };
    // 0 is collected first, so nothing is delivered.
    assert!(matches!(q2.compile_sub_page(SubPageId::new(0), 1000, &page0), CompileSubpageResult::GcFound));

    let mut q3 = TopicQueue::new("t".to_string(), QueueId::new("q".to_string()), TopicQueueType::Permanent);
    q3.enqueue_messages(&ids(&[5, 7]));
    let mut page3 = page_with(&[5, 6, 7], 1);
    page3.gc_messages(0);
    match q3.compile_sub_page(SubPageId::new(0), 1000, &page3) {
        CompileSubpageResult::OkMessages(v) => assert_eq!(v.len(), 2),
        _ => panic!("messages should be taken"),
    }
}

#[test]
fn queues_list_adds_finds_and_removes() {
    let mut list = TopicQueuesList::new();
    assert_eq!(list.get_snapshot_id(), 0);
    list.add_queue_if_not_exists("t".to_string(), "a".to_string(), TopicQueueType::Permanent);
    assert_eq!(list.get_snapshot_id(), 1);
    let q = list.add_queue_if_not_exists("t".to_string(), "a".to_string(), TopicQueueType::DeleteOnDisconnect);
    assert_eq!(q.queue_type, TopicQueueType::DeleteOnDisconnect);
    assert_eq!(list.get_snapshot_id(), 1);
    list.restore("t".to_string(), "b".to_string(), TopicQueueType::Permanent, ids(&[3]));
    assert_eq!(list.get_snapshot_id(), 2);
    assert_eq!(list.get_all().len(), 2);
    assert!(list.get("b").unwrap().queue.contains(3));
    assert!(list.get("c").is_none());

    let snapshot = list.get_snapshot_to_persist();
    assert_eq!(snapshot.len(), 1);
    assert_eq!(snapshot[0].queue_id, "b");

    assert!(list.remove("a").is_some());
    assert!(list.remove("a").is_none());
    assert_eq!(list.get_snapshot_id(), 3);
    assert!(list.get_mut("a").is_none());
    list.get_all_mut()[0].queue.enqueue(9);
    assert!(list.get("b").unwrap().queue.contains(9));
}

#[test]
fn compile_sub_page_delivers_then_reports_collected() {
    let mut page = SubPage::new_at(SubPageId::new(0), 0);
    page.add_message(MySbMessageContent::new(2, vec![1], Vec::new(), 0), false);
    page.gc_messages(3);
    page.add_message(MySbMessageContent::new(1, vec![1], Vec::new(), 0), false);
    let mut q = TopicQueue::new("t".to_string(), QueueId::new("q".to_string()), TopicQueueType::Permanent);
    q.enqueue_messages(&ids(&[1, 2]));
    match q.compile_sub_page(SubPageId::new(0), 1000, &page) {
        CompileSubpageResult::OkWithGcFound(v) => {
            assert_eq!(v.len(), 1);
            assert_eq!(v[0].1.id, 1);
        }
        _ => panic!("one message then a collected one"),
    }
    assert!(!q.queue.contains(1));
    assert!(q.queue.contains(2));
}

use my_sb_node::messages::pages_list::MessagesPageList;
use my_sb_node::queues::delivery::DeliveryStep;

#[test]
fn delivery_steps_until_the_queue_is_empty() {
    let mut pages = MessagesPageList::new();
    pages.add_message(MySbMessageContent::new(1, vec![1], Vec::new(), 0), false, 0);
    pages.add_message(MySbMessageContent::new(2, vec![2], Vec::new(), 0), false, 0);
    let mut q = TopicQueue::new("t".to_string(), QueueId::new("q".to_string()), TopicQueueType::Permanent);
    q.enqueue_messages(&ids(&[0, 1, 2, 1500]));

    match q.next_delivery_step(&pages, 1000) {
        DeliveryStep::Deliver(v) => {
            let taken: Vec<i64> = v.iter().map(|(_, m)| m.id).collect();
            assert_eq!(taken, vec![1, 2]);
        }
        _ => panic!("1 and 2 should be delivered"),
    }
    // 0 was never held by the sub page: it is dropped on the way.
    assert!(!q.queue.contains(0));
    match q.next_delivery_step(&pages, 1000) {
        DeliveryStep::LoadSubPage(id) => assert_eq!(id.get_value(), 1),
        _ => panic!("sub page 1 is not in memory"),
    }
    assert!(q.queue.contains(1500));
    q.queue.remove(1500);
    assert!(matches!(q.next_delivery_step(&pages, 1000), DeliveryStep::Done));
}

#[test]
fn delivery_step_skips_ids_the_page_never_held() {
    let mut pages = MessagesPageList::new();
    pages.add_message(MySbMessageContent::new(5, vec![1], Vec::new(), 0), false, 0);
    let mut q = TopicQueue::new("t".to_string(), QueueId::new("q".to_string()), TopicQueueType::Permanent);
    q.enqueue_messages(&ids(&[3, 1000]));
    assert!(matches!(q.next_delivery_step(&pages, 1000), DeliveryStep::Skipped));
    assert!(!q.queue.contains(3));
    assert!(q.queue.contains(1000));
}

#[test]
fn queue_ids_are_equal_by_name() {
    let a = QueueId::new("q".to_string());
    let b = QueueId::new("q".to_string());
    let c = QueueId::new("r".to_string());
    assert!(a == b);
    assert!(a != c);
    let mut set = HashSet::new();
    set.insert(a.clone());
    assert!(set.contains(&b));
    assert!(!set.contains(&c));
}
