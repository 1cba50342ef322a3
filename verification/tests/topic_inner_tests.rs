use my_sb_node::messages::message::{MessageHeader, MessageToPublish};
use my_sb_node::messages::sub_page::GetMessageResult;
use my_sb_node::queue_with_intervals::QueueWithIntervals;
use my_sb_node::queues::queue::TopicQueueType;
use my_sb_node::sessions::session_id::SessionId;
use my_sb_node::topics::topic_inner::TopicInner;

#[test]
fn test_we_deliver_then_persist_then_gc_message() {
    let mut topic_inner = TopicInner::new("test".to_string(), 0, true);

    topic_inner.queues.add_queue_if_not_exists(
        "test".to_string(),
        "test".to_string(),
        TopicQueueType::DeleteOnDisconnect,
    );

    topic_inner.publish_messages(
        SessionId::new(10),
        vec![MessageToPublish {
            headers: Vec::new(),
            content: vec![1, 2, 3],
        }],
    );

    let queue = topic_inner.queues.get_mut("test").unwrap();

    let message_to_deliver_id = queue.queue.dequeue().unwrap();

    let mut delivered = QueueWithIntervals::new();

    delivered.enqueue(message_to_deliver_id);

    queue.confirm_delivered(&delivered);

    let messages_to_persist = topic_inner.get_messages_to_persist();

    for (sub_page_id, messages) in messages_to_persist {
        let mut confirm_persisted = QueueWithIntervals::new();
        for msg in messages {
            confirm_persisted.enqueue(msg.id);
        }

        topic_inner.mark_messages_as_persisted(sub_page_id, &confirm_persisted);
    }

    let message_result = topic_inner.get_message(message_to_deliver_id);

    assert!(message_result.unwrap().is_garbage_collected());
}

fn message(content: Vec<u8>) -> MessageToPublish {
    MessageToPublish {
        headers: vec![MessageHeader {
            key: "k".to_string(),
            value: "v".to_string(),
        }],
        content,
    }
}

#[test]
fn published_messages_read_back_and_reach_every_queue() {
    let mut topic = TopicInner::new("orders".to_string(), 998, false);
    topic.queues.add_queue_if_not_exists(
        "orders".to_string(),
        "a".to_string(),
        TopicQueueType::Permanent,
    );
    topic.queues.add_queue_if_not_exists(
        "orders".to_string(),
        "b".to_string(),
        TopicQueueType::DeleteOnDisconnect,
    );

    topic.publish_messages_at(
        SessionId::new(7),
        vec![message(vec![1]), message(vec![2]), message(vec![3])],
        42,
    );

    assert_eq!(topic.message_id, 1001);
    for (id, content) in [(998i64, 1u8), (999, 2), (1000, 3)] {
        match topic.get_message(id) {
            Some(GetMessageResult::Message(m)) => {
                assert_eq!(m.id, id);
                assert_eq!(m.content, vec![content]);
                assert_eq!(m.time, 42);
                assert_eq!(m.headers.len(), 1);
                assert_eq!(m.headers[0].key, "k");
            }
            _ => panic!("published message should read back"),
        }
    }
    assert!(topic.get_message(5000).is_none());
    for name in ["a", "b"] {
        let q = topic.queues.get(name).unwrap();
        assert!(q.queue.contains(998));
        assert!(q.queue.contains(1000));
        assert!(!q.queue.contains(1001));
        assert_eq!(q.get_queue_size(), 3);
    }
    assert!(topic.publishers.has_session(SessionId::new(7)));
    // The topic does not persist, so nothing waits for persistence.
    assert!(topic.get_messages_to_persist().is_empty());
}

#[test]
fn min_message_id_takes_queues_and_persistence_into_account() {
    let mut topic = TopicInner::new("t".to_string(), 0, true);
    assert_eq!(topic.get_min_message_id(), Some(0));
    topic.queues.add_queue_if_not_exists("t".to_string(), "q".to_string(), TopicQueueType::Permanent);
    topic.publish_messages_at(SessionId::new(1), vec![message(vec![1]), message(vec![2])], 1);
    assert_eq!(topic.get_min_message_id(), Some(0));

    let q = topic.queues.get_mut("q").unwrap();
    assert_eq!(q.queue.dequeue(), Some(0));
    assert_eq!(q.queue.dequeue(), Some(1));
    // Both still wait for persistence.
    assert_eq!(topic.get_min_message_id(), Some(0));

    let mut persisted = QueueWithIntervals::new();
    persisted.enqueue(0);
    persisted.enqueue(1);
    let current = topic.get_current_sub_page();
    assert_eq!(current.get_value(), 0);
    topic.mark_messages_as_persisted(current, &persisted);
    assert_eq!(topic.get_min_message_id(), Some(2));
    assert!(topic.get_message(0).unwrap().is_garbage_collected());
    assert!(topic.get_message(1).unwrap().is_garbage_collected());
}

#[test]
fn gc_keeps_messages_a_queue_still_holds() {
    let mut topic = TopicInner::new("t".to_string(), 0, false);
    topic.queues.add_queue_if_not_exists("t".to_string(), "q".to_string(), TopicQueueType::Permanent);
    topic.publish_messages_at(SessionId::new(1), vec![message(vec![1]), message(vec![2])], 1);
    topic.gc_messages();
    assert!(matches!(topic.get_message(0), Some(GetMessageResult::Message(_))));
    assert!(matches!(topic.get_message(1), Some(GetMessageResult::Message(_))));

    let q = topic.queues.get_mut("q").unwrap();
    q.queue.dequeue();
    topic.gc_messages();
    assert!(topic.get_message(0).unwrap().is_garbage_collected());
    assert!(matches!(topic.get_message(1), Some(GetMessageResult::Message(_))));
}

#[test]
fn active_sub_pages_hold_current_and_queue_pages() {
    let mut topic = TopicInner::new("t".to_string(), 2500, false);
    topic.queues.add_queue_if_not_exists("t".to_string(), "q".to_string(), TopicQueueType::Permanent);
    topic.queues.get_mut("q").unwrap().queue.enqueue(1200);
    let active = topic.get_active_sub_pages();
    let values: Vec<i64> = active.as_slice().iter().map(|p| p.get_value()).collect();
    assert!(values.contains(&2));
    assert!(values.contains(&1));
    assert_eq!(values.len(), 2);
}

#[test]
fn publisher_badge_fades_with_ticks() {
    let mut topic = TopicInner::new("t".to_string(), 0, false);
    topic.set_publisher_as_active(SessionId::new(3));
    let entry = topic.publishers.iter().next().unwrap();
    assert_eq!(entry.1, 2);
    topic.one_second_tick();
    topic.one_second_tick();
    topic.one_second_tick();
    let entry = topic.publishers.iter().next().unwrap();
    assert_eq!(entry.1, 0);
    assert!(topic.publishers.has_session(SessionId::new(3)));
}

use my_sb_node::queues::queue::QueueSubscribersState;
use my_sb_node::topics::namespace::as_grpc_namespace;

#[test]
fn messages_of_a_topic_that_does_not_persist_never_wait_for_persistence() {
    let mut topic = TopicInner::new("t".to_string(), 0, false);
    topic.publish_messages_at(SessionId::new(1), vec![message(vec![1]), message(vec![2])], 3);
    assert!(topic.get_messages_to_persist().is_empty());
    assert_eq!(topic.pages.get_persisted_min_message_id(), None);
    assert_eq!(topic.get_min_message_id(), Some(2));
}

#[test]
fn only_expired_delete_on_disconnect_queues_without_subscribers_are_removed() {
    let mut topic = TopicInner::new("t".to_string(), 0, false);
    for (name, queue_type) in [
        ("temp-old", TopicQueueType::DeleteOnDisconnect),
        ("temp-new", TopicQueueType::DeleteOnDisconnect),
        ("temp-busy", TopicQueueType::DeleteOnDisconnect),
        ("kept", TopicQueueType::Permanent),
    ] {
        topic.queues.add_queue_if_not_exists("t".to_string(), name.to_string(), queue_type);
    }
    topic.queues.get_mut("temp-old").unwrap().subscribers.last_unsubscribe = 100;
    topic.queues.get_mut("temp-new").unwrap().subscribers.last_unsubscribe = 950;
    let busy = topic.queues.get_mut("temp-busy").unwrap();
    busy.subscribers.amount = 1;
    busy.subscribers.last_unsubscribe = 0;
    topic.queues.get_mut("kept").unwrap().subscribers.last_unsubscribe = 0;

    let no_subscribers = topic.queues.get_queues_with_no_subscribers().unwrap();
    let names: Vec<&str> = no_subscribers.iter().map(|q| q.queue_id.as_str()).collect();
    assert_eq!(names, vec!["temp-old", "temp-new", "kept"]);

    let snapshot = topic.queues.get_snapshot_id();
    assert_eq!(topic.gc_queues_with_no_subscribers(100, 1000), Some(vec!["temp-old".to_string()]));
    assert!(topic.queues.get("temp-old").is_none());
    assert!(topic.queues.get("temp-new").is_some());
    assert_eq!(topic.queues.get_snapshot_id(), snapshot + 1);
    assert_eq!(topic.gc_queues_with_no_subscribers(100, 1000), None);
    // Exactly the timeout is not more than the timeout.
    assert_eq!(topic.gc_queues_with_no_subscribers(50, 1000), None);
    assert_eq!(topic.gc_queues_with_no_subscribers(49, 1000), Some(vec!["temp-new".to_string()]));
    assert_eq!(topic.queues.get_all().len(), 2);
}

#[test]
fn messages_on_delivery_are_kept_by_gc() {
    let mut topic = TopicInner::new("t".to_string(), 0, false);
    topic.queues.add_queue_if_not_exists("t".to_string(), "q".to_string(), TopicQueueType::Permanent);
    topic.publish_messages_at(SessionId::new(1), vec![message(vec![1]), message(vec![2])], 1);
    let q = topic.queues.get_mut("q").unwrap();
    q.queue.dequeue();
    q.queue.dequeue();
    q.subscribers = QueueSubscribersState {
        amount: 1,
        last_unsubscribe: 0,
        min_on_delivery: Some(1),
    };
    assert_eq!(topic.get_min_message_id(), Some(1));
    topic.gc_messages();
    assert!(topic.get_message(0).unwrap().is_garbage_collected());
    assert!(matches!(topic.get_message(1), Some(GetMessageResult::Message(_))));
}

#[test]
fn default_namespace_is_sent_as_absent() {
    assert_eq!(as_grpc_namespace("default"), None);
    assert_eq!(as_grpc_namespace("orders"), Some("orders".to_string()));
    assert_eq!(as_grpc_namespace("Default"), Some("Default".to_string()));
    assert_eq!(as_grpc_namespace(""), Some("".to_string()));
}
