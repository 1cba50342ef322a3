use std::sync::Arc;

use my_sb_node::queues::queue_id::QueueId;
use my_sb_node::queues::subscriber_id::SubscriberId;
use my_sb_node::sessions::http_delivery_package::HttpDeliveryPackage;
use my_sb_node::sessions::http_send_queue::HttpSendQueue;
use my_sb_node::sessions::http_session_key::HttpSessionKey;
use my_sb_node::sessions::my_sb_session::copy_opt_string;
use my_sb_node::sessions::send_queue_inner::SendQueueInner;
use my_sb_node::sessions::session_id::SessionId;
use my_sb_node::sessions::tcp_session::MyServiceBusTcpSession;
use my_sb_node::sessions::tcp_sessions_list::TcpSessionsList;

fn package(queue: &str, subscriber: i64, messages: Vec<u8>) -> HttpDeliveryPackage<u8> {
    HttpDeliveryPackage {
        topic_id: "t".to_string(),
        queue_id: QueueId::new(queue.to_string()),
        subscriber_id: SubscriberId::new(subscriber),
        messages,
    }
}

#[test]
fn http_send_queue_is_first_in_first_out() {
    let mut q = HttpSendQueue::new();
    let a = package("a", 1, vec![1]);
    assert!(!q.has_it_already(&a));
    q.enqueue_messages(a);
    assert!(q.has_it_already(&package("a", 1, vec![9])));
    assert!(!q.has_it_already(&package("a", 2, vec![9])));
    q.enqueue_messages(package("b", 1, vec![2]));
    assert_eq!(q.len(), 2);
    assert_eq!(q.get_next_package().unwrap().messages, vec![1]);
    assert_eq!(q.get_next_package().unwrap().messages, vec![2]);
    assert!(q.get_next_package().is_none());
}

#[test]
fn send_queue_inner_hands_packages_to_a_waiting_client() {
    let mut inner: SendQueueInner<u8> = SendQueueInner::new();
    assert!(inner.deliver_message().is_none());
    assert!(inner.take_package_or_engage(100).is_none());
    assert_eq!(inner.task_completion, Some(100));
    inner.queue.enqueue_messages(package("a", 1, vec![5]));
    let p = inner.deliver_message().unwrap();
    assert_eq!(p.messages, vec![5]);
    assert!(inner.task_completion.is_none());

    inner.engage_awaiter_at(200);
    assert_eq!(inner.ping_awaiter(), Some(200));
    assert_eq!(inner.ping_awaiter(), None);
    inner.queue.enqueue_messages(package("a", 1, vec![6]));
    // No client waits, so the package stays.
    assert!(inner.deliver_message().is_none());
    assert_eq!(inner.take_package_or_engage(300).unwrap().messages, vec![6]);
    assert!(inner.task_completion.is_none());
    inner.engage_awaiter();
    assert!(inner.task_completion.is_some());
}

#[test]
fn http_session_key_is_a_uuid_v4() {
    let key = HttpSessionKey::new();
    let text = key.as_str().to_string();
    assert_eq!(text.len(), 36);
    let parts: Vec<&str> = text.split('-').collect();
    assert_eq!(parts.iter().map(|p| p.len()).collect::<Vec<_>>(), vec![8, 4, 4, 4, 12]);
    assert_eq!(&text[14..15], "4");
    assert!(text.chars().all(|c| c == '-' || c.is_ascii_digit() || ('a'..='f').contains(&c)));
    let other = HttpSessionKey::new();
    assert_ne!(other.as_str(), key.as_str());
    assert_eq!(key.duplicate().as_str(), key.as_str());
    assert_eq!(key.into_string(), text);
}

fn tcp_session(id: i64, connection: i32) -> MyServiceBusTcpSession {
    MyServiceBusTcpSession::new(
        SessionId::new(id),
        connection,
        "client".to_string(),
        Some("1.0".to_string()),
        None,
        3,
        "default".to_string(),
    )
}

#[test]
fn tcp_session_namespace_locks() {
    let mut s = tcp_session(1, 10);
    assert_eq!(s.get_namespace(), "default");
    assert_eq!(s.set_namespace("other".to_string()), Ok(()));
    assert_eq!(s.get_namespace(), "other");
    s.lock_namespace();
    assert_eq!(s.set_namespace("other".to_string()), Ok(()));
    assert_eq!(
        s.set_namespace("third".to_string()),
        Err("Namespace can not be changed to 'third' after the connection has published or subscribed".to_string())
    );
    assert_eq!(s.get_namespace(), "other");
}

#[test]
fn tcp_session_versions_and_identity() {
    let mut s = tcp_session(7, 70);
    assert_eq!(s.get_session_id().get_value(), 7);
    assert_eq!(s.get_connection_id(), 70);
    assert_eq!(*s.get_key(), 70);
    assert_eq!(s.get_protocol_version(), 3);
    s.update_deliver_message_packet_version(2);
    let v = s.get_messages_to_deliver_protocol_version();
    assert_eq!(v.tcp_protocol_version, 3);
    assert_eq!(v.packet_version, 2);
    let nv = s.get_name_and_version();
    assert_eq!(nv.name, "client");
    assert_eq!(nv.version, Some("1.0".to_string()));
    assert_eq!(nv.env_info, None);
    assert_eq!(copy_opt_string(&Some("x".to_string())), Some("x".to_string()));
    assert_eq!(copy_opt_string(&None), None);
}

#[test]
fn tcp_sessions_list_finds_and_removes() {
    let mut list = TcpSessionsList::new();
    list.add(Arc::new(tcp_session(5, 50)));
    list.add(Arc::new(tcp_session(2, 20)));
    list.add(Arc::new(tcp_session(9, 90)));
    assert_eq!(list.len(), 3);
    assert_eq!(list.get_session_id(20).unwrap().get_value(), 2);
    assert_eq!(list.get_by_connection_id(90).unwrap().get_session_id().get_value(), 9);
    assert!(list.get_by_connection_id(30).is_none());

    let mut all = Vec::new();
    list.fill_sessions(&mut all);
    let order: Vec<i64> = all.iter().map(|s| s.get_session_id().get_value()).collect();
    assert_eq!(order, vec![2, 5, 9]);

    assert_eq!(list.remove_by_session_id(SessionId::new(5)).unwrap().get_connection_id(), 50);
    assert!(list.remove_by_session_id(SessionId::new(5)).is_none());
    assert_eq!(list.remove_by_connection_id(90).unwrap().get_session_id().get_value(), 9);
    assert!(list.get_by_connection_id(90).is_none());
    assert_eq!(list.len(), 1);
}

#[test]
fn session_id_accessors() {
    let id = SessionId::new(12);
    assert_eq!(id.get_value(), 12);
    assert_eq!(*id.as_ref(), 12);
}

use my_sb_node::sessions::test::test_session::MyServiceBusTestSession;
use my_sb_node::sessions::test::test_sessions_list::TestSessionsList;
use my_sb_node::sessions::test_connection_data::TestConnectionData;

#[test]
fn test_connection_keeps_what_it_was_sent() {
    let mut c: TestConnectionData<u8> = TestConnectionData::new(SessionId::new(3), "127.0.0.1".to_string());
    assert_eq!(c.name, "Test");
    assert!(c.version.is_none());
    assert!(c.is_connected());
    c.send_messages("t".to_string(), QueueId::new("q".to_string()), SubscriberId::new(1), vec![1, 2]);
    c.send_messages("t".to_string(), QueueId::new("r".to_string()), SubscriberId::new(2), vec![3]);
    let packets = c.get_list_of_packets_and_clear_them();
    assert_eq!(packets.len(), 2);
    assert_eq!(packets[0].queue_id.as_str(), "q");
    assert_eq!(packets[0].messages, vec![1, 2]);
    assert_eq!(packets[1].subscriber_id.get_value(), 2);
    assert!(c.get_list_of_packets_and_clear_them().is_empty());
    assert!(c.disconnect());
    assert!(!c.disconnect());
    assert!(!c.is_connected());
}

#[test]
fn test_sessions_list_removes_by_id() {
    let mut list: TestSessionsList<u8> = TestSessionsList::new();
    let mut s1 = MyServiceBusTestSession::new(SessionId::new(1), "ip".to_string());
    s1.send_messages_to_connection("t".to_string(), QueueId::new("q".to_string()), SubscriberId::new(1), vec![7]);
    assert_eq!(s1.get_name_and_version().name, "Test");
    let delivered = s1.get_list_of_packets_and_clear_them();
    assert_eq!(delivered.len(), 1);
    assert_eq!(delivered[0]._messages, vec![7]);
    assert!(s1.disconnect());
    assert!(!s1.disconnect());
    list.add(Arc::new(s1));
    list.add(Arc::new(MyServiceBusTestSession::new(SessionId::new(2), "ip".to_string())));

    let mut all = Vec::new();
    list.fill_sessions(&mut all);
    assert_eq!(all.len(), 2);
    assert_eq!(all[1].get_session_id().get_value(), 2);

    assert_eq!(list.remove_by_session_id(SessionId::new(1)).unwrap().get_session_id().get_value(), 1);
    assert!(list.remove_by_session_id(SessionId::new(1)).is_none());
    let mut rest = Vec::new();
    list.fill_sessions(&mut rest);
    assert_eq!(rest.len(), 1);
}
