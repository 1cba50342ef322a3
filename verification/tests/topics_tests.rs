use my_sb_node::sessions::session_id::SessionId;
use my_sb_node::topics::atomic_snapshot_id::AtomicSnapshotId;
use my_sb_node::topics::reusable_topics_list::ReusableTopicsList;
use my_sb_node::topics::topic_publishers::TopicPublishers;
use my_sb_node::topics::topics_list::TopicsSnapshot;

#[test]
fn publishers_count_down_and_are_removed() {
    let mut p = TopicPublishers::new();
    assert_eq!(p.len(), 0);
    p.add(SessionId::new(1), 2);
    p.add(SessionId::new(2), 1);
    p.add(SessionId::new(1), 5);
    assert_eq!(p.len(), 2);
    let entries: Vec<(i64, u8)> = p.iter().map(|(s, v)| (s.get_value(), *v)).collect();
    assert_eq!(entries, vec![(1, 5), (2, 1)]);

    p.one_second_tick();
    p.one_second_tick();
    let entries: Vec<(i64, u8)> = p.iter().map(|(s, v)| (s.get_value(), *v)).collect();
    assert_eq!(entries, vec![(1, 3), (2, 0)]);

    assert!(p.has_session(SessionId::new(2)));
    p.remove(SessionId::new(2));
    assert!(!p.has_session(SessionId::new(2)));
    assert!(p.has_session(SessionId::new(1)));
    p.remove(SessionId::new(42));
    assert_eq!(p.len(), 1);
}

#[test]
fn reusable_list_matches_recorded_snapshot() {
    let mut list: ReusableTopicsList<u32> = ReusableTopicsList::new();
    let mut id = AtomicSnapshotId::new();
    assert_eq!(id.get_snapshot_id(), 0);
    assert_eq!(id.get_len(), 0);
    assert!(!list.check_with_snapshot_id(0));
    assert!(!id.has_the_same_snapshot_id(&list));

    list.push(7);
    list.push(8);
    list.update_snapshot_id(3);
    id.update_snapshot_id(3);
    assert!(!id.has_the_same_snapshot_id(&list));
    id.update_len(2);
    assert!(id.has_the_same_snapshot_id(&list));
    assert_eq!(list.iter().copied().collect::<Vec<_>>(), vec![7, 8]);

    list.clean(16);
    assert_eq!(list.len(), 0);
    assert!(list.check_with_snapshot_id(3));
    assert!(!id.has_the_same_snapshot_id(&list));
}

#[test]
fn topics_snapshot_counts_changes() {
    let mut s: TopicsSnapshot<&str> = TopicsSnapshot::new();
    assert_eq!(s.snapshot_id, 0);
    assert!(s.topics.is_empty());
    s.update(vec!["a", "b"]);
    assert_eq!(s.snapshot_id, 1);
    assert_eq!(*s.topics, vec!["a", "b"]);
    s.update(Vec::new());
    assert_eq!(s.snapshot_id, 2);
    assert!(s.topics.is_empty());
}
