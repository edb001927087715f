use danube_reliable_dispatch::options::{ReliableOptions, RetentionPolicy};
use danube_reliable_dispatch::reliable_dispatch::{LifecycleAction, LifecycleEvent, ReliableDispatch};
use danube_reliable_dispatch::storage_backend::{InMemoryStorage, StorageBackend, UnreliableStorage};
use danube_reliable_dispatch::subscriptions::{least_cursor, Subscriptions};
use danube_reliable_dispatch::topic_cache::TopicCache;
use danube_reliable_dispatch::segment_index::ReclaimRule;
use danube_reliable_dispatch::topic_storage::TopicStore;
use danube_reliable_dispatch::{MessageID, StreamMessage};
use std::collections::HashMap;

const TOPIC: &str = "/default/events";

fn event_message(topic_seq: u64, payload_len: usize) -> StreamMessage {
    StreamMessage {
        msg_id: MessageID { producer_id: 1, topic_seq, segment_id: 0, segment_offset: 0 },
        payload: vec![2; payload_len],
        attributes: HashMap::new(),
        publish_time: 1,
    }
}

fn topic_with(policy: RetentionPolicy, retention_period: u64) -> ReliableDispatch<InMemoryStorage> {
    let cache = TopicCache::new(InMemoryStorage::new(), 100, 10);
    ReliableDispatch::new(TOPIC, ReliableOptions::new(1, policy, retention_period), cache)
}

fn reclaimed_by(action: LifecycleAction) -> Vec<usize> {
    match action {
        LifecycleAction::Continue { reclaimed } => reclaimed,
        LifecycleAction::Stop => panic!("the lifecycle task stopped"),
    }
}

fn index_ids(topic: &ReliableDispatch<InMemoryStorage>) -> Vec<usize> {
    topic.topic_store().segments_index().iter().map(|entry| entry.0).collect()
}

#[test]
fn least_cursor_is_the_minimum_or_zero() {
    assert_eq!(least_cursor(&vec![]), 0);
    assert_eq!(least_cursor(&vec![4]), 4);
    assert_eq!(least_cursor(&vec![3, 1, 2]), 1);
    assert_eq!(least_cursor(&vec![5, 5]), 5);
}

#[test]
fn subscriptions_keep_cursors() {
    let mut subscriptions = Subscriptions::new();
    assert_eq!(subscriptions.cursor("a"), None);
    assert_eq!(subscriptions.min_acknowledged(), 0);
    subscriptions.add("a");
    subscriptions.add("b");
    assert_eq!(subscriptions.cursor("a"), Some(0));
    assert!(subscriptions.acknowledge("a", 3));
    assert!(subscriptions.acknowledge("b", 1));
    assert!(!subscriptions.acknowledge("c", 9));
    assert_eq!(subscriptions.cursor("a"), Some(3));
    assert_eq!(subscriptions.min_acknowledged(), 1);
    // a cursor never moves back
    assert!(subscriptions.acknowledge("a", 2));
    assert_eq!(subscriptions.cursor("a"), Some(3));
    // adding again keeps the cursor
    subscriptions.add("a");
    assert_eq!(subscriptions.cursor("a"), Some(3));
    assert_eq!(subscriptions.cursor("c"), None);
}

#[test]
fn reclaim_rule_applies_to_closed_segments_only() {
    let ack = ReclaimRule::Acknowledged { min_acknowledged_id: 3 };
    assert!(ack.applies((3, 10), 0));
    assert!(ack.applies((0, 10), 0));
    assert!(!ack.applies((4, 10), 0));
    assert!(!ack.applies((2, 0), 0));
    let expire = ReclaimRule::Expired { now: 100 };
    assert!(expire.applies((0, 90), 10));
    assert!(expire.applies((0, 40), 10));
    assert!(!expire.applies((0, 91), 10));
    assert!(!expire.applies((0, 0), 10));
    // a close time ahead of the clock is not expired
    assert!(!expire.applies((0, 101), 0));
    assert!(expire.applies((0, 100), 0));
}

#[test]
fn acknowledged_segments_are_reclaimed_up_to_the_slowest_subscription() {
    let mut topic = topic_with(RetentionPolicy::RetainUntilAck, 3600);
    topic.add_subscription("A").unwrap();
    topic.add_subscription("B").unwrap();
    for seq in 0..3000u64 {
        topic.store_message(event_message(seq, 2048), 1000 + seq).unwrap();
    }
    assert_eq!(index_ids(&topic), vec![0, 1, 2, 3, 4, 5]);
    assert_eq!(topic.topic_store().current_segment_id(), 5);
    topic.acknowledge("A", 3).unwrap();
    topic.acknowledge("B", 1).unwrap();
    let reclaimed = reclaimed_by(topic.lifecycle_step(LifecycleEvent::Tick { now: 9999 }));
    assert_eq!(reclaimed, vec![0, 1]);
    assert_eq!(index_ids(&topic), vec![2, 3, 4, 5]);
    assert_eq!(topic.topic_store().segments_index()[3], (5, 0));
    let backend = topic.topic_store().topic_cache().storage();
    assert_eq!(backend.len(), 3);
    assert!(backend.get_segment(TOPIC, 0).unwrap().is_none());
    assert!(backend.get_segment(TOPIC, 1).unwrap().is_none());
    assert!(backend.get_segment(TOPIC, 2).unwrap().is_some());
    // a second tick finds nothing more
    let reclaimed = reclaimed_by(topic.lifecycle_step(LifecycleEvent::Tick { now: 9999 }));
    assert!(reclaimed.is_empty());
}

#[test]
fn every_subscription_past_a_segment_frees_it() {
    let mut topic = topic_with(RetentionPolicy::RetainUntilAck, 3600);
    topic.add_subscription("A").unwrap();
    topic.add_subscription("B").unwrap();
    for seq in 0..2000u64 {
        topic.store_message(event_message(seq, 2048), 1000).unwrap();
    }
    topic.acknowledge("A", 2).unwrap();
    topic.acknowledge("B", 7).unwrap();
    reclaimed_by(topic.lifecycle_step(LifecycleEvent::Tick { now: 2000 }));
    for entry in topic.topic_store().segments_index() {
        assert!(!(entry.1 > 0 && entry.0 <= 2));
    }
    assert_eq!(index_ids(&topic), vec![3]);
}

#[test]
fn a_fresh_cursor_already_frees_the_first_segment() {
    let mut topic = topic_with(RetentionPolicy::RetainUntilAck, 3600);
    topic.add_subscription("A").unwrap();
    for seq in 0..600u64 {
        topic.store_message(event_message(seq, 2048), 1000).unwrap();
    }
    assert_eq!(index_ids(&topic), vec![0, 1]);
    let reclaimed = reclaimed_by(topic.lifecycle_step(LifecycleEvent::Tick { now: 2000 }));
    assert_eq!(reclaimed, vec![0]);
}

#[test]
fn without_subscriptions_only_segment_zero_is_acknowledged() {
    let mut topic = topic_with(RetentionPolicy::RetainUntilAck, 3600);
    for seq in 0..1600u64 {
        topic.store_message(event_message(seq, 2048), 1000).unwrap();
    }
    assert_eq!(index_ids(&topic), vec![0, 1, 2, 3]);
    let reclaimed = reclaimed_by(topic.lifecycle_step(LifecycleEvent::Tick { now: 2000 }));
    assert_eq!(reclaimed, vec![0]);
    assert_eq!(index_ids(&topic), vec![1, 2, 3]);
}

#[test]
fn expired_segments_are_reclaimed_whatever_was_acknowledged() {
    let mut topic = topic_with(RetentionPolicy::RetainUntilExpire, 1);
    topic.add_subscription("A").unwrap();
    for seq in 0..513u64 {
        topic.store_message(event_message(seq, 2048), 1000).unwrap();
    }
    assert_eq!(topic.topic_store().segments_index(), &vec![(0, 1000), (1, 0)]);
    // not yet a second old
    let reclaimed = reclaimed_by(topic.lifecycle_step(LifecycleEvent::Tick { now: 1000 }));
    assert!(reclaimed.is_empty());
    let reclaimed = reclaimed_by(topic.lifecycle_step(LifecycleEvent::Tick { now: 1002 }));
    assert_eq!(reclaimed, vec![0]);
    assert_eq!(topic.topic_store().segments_index(), &vec![(1, 0)]);
    assert_eq!(topic.topic_store().topic_cache().storage().len(), 0);
}

#[test]
fn expiry_at_exactly_the_retention_period() {
    let cache = TopicCache::new(InMemoryStorage::new(), 100, 10);
    let mut store = TopicStore::new(TOPIC, cache, ReliableOptions::new(0, RetentionPolicy::RetainUntilExpire, 10));
    store.store_message(event_message(0, 1), 100).unwrap();
    store.store_message(event_message(1, 1), 105).unwrap();
    assert_eq!(store.segments_index(), &vec![(0, 100), (1, 105), (2, 0)]);
    assert!(store.cleanup_expired_segments(109).is_empty());
    assert_eq!(store.cleanup_expired_segments(110), vec![0]);
    assert_eq!(store.segments_index(), &vec![(1, 105), (2, 0)]);
    assert_eq!(store.cleanup_expired_segments(200), vec![1]);
    assert_eq!(store.segments_index(), &vec![(2, 0)]);
}

#[test]
fn the_writable_segment_is_never_reclaimed() {
    let mut topic = topic_with(RetentionPolicy::RetainUntilAck, 3600);
    topic.add_subscription("A").unwrap();
    topic.store_message(event_message(0, 10), 1000).unwrap();
    topic.acknowledge("A", 50).unwrap();
    let reclaimed = reclaimed_by(topic.lifecycle_step(LifecycleEvent::Tick { now: 5000 }));
    assert!(reclaimed.is_empty());
    assert_eq!(topic.topic_store().segments_index(), &vec![(0, 0)]);
}

#[test]
fn a_failed_removal_keeps_the_entry_for_the_next_tick() {
    // three rollovers go through, then one removal fails
    let cache = TopicCache::new(UnreliableStorage::new(3, 1, false), 100, 10);
    let mut store = TopicStore::new(TOPIC, cache, ReliableOptions::new(0, RetentionPolicy::RetainUntilAck, 0));
    for seq in 0..3u64 {
        store.store_message(event_message(seq, 1), 100 + seq).unwrap();
    }
    assert_eq!(store.segments_index(), &vec![(0, 100), (1, 101), (2, 102), (3, 0)]);
    let rule = ReclaimRule::Acknowledged { min_acknowledged_id: 1 };
    // segment 0 cannot be removed from the backend and keeps its entry
    assert_eq!(store.reclaim(&rule), vec![1]);
    assert_eq!(store.segments_index(), &vec![(0, 100), (2, 102), (3, 0)]);
    assert_eq!(store.topic_cache().storage().len(), 2);
    // the next reclamation takes it
    assert_eq!(store.reclaim(&rule), vec![0]);
    assert_eq!(store.segments_index(), &vec![(2, 102), (3, 0)]);
    assert_eq!(store.topic_cache().storage().len(), 1);
    // what is left can still be read
    assert_eq!(store.get_next_segment(None).unwrap().unwrap().id(), 2);
}

#[test]
fn cleanup_by_acknowledgement_reads_the_subscriptions() {
    let cache = TopicCache::new(InMemoryStorage::new(), 100, 10);
    let mut store = TopicStore::new(TOPIC, cache, ReliableOptions::new(0, RetentionPolicy::RetainUntilAck, 0));
    for seq in 0..4u64 {
        store.store_message(event_message(seq, 1), 100 + seq).unwrap();
    }
    let mut subscriptions = Subscriptions::new();
    subscriptions.add("A");
    subscriptions.add("B");
    subscriptions.acknowledge("A", 2);
    subscriptions.acknowledge("B", 3);
    assert_eq!(store.cleanup_acknowledged_segments(&subscriptions), vec![0, 1, 2]);
    assert_eq!(store.segments_index(), &vec![(3, 103), (4, 0)]);
}

#[test]
fn shutdown_stops_the_lifecycle_task_and_every_operation() {
    let mut topic = topic_with(RetentionPolicy::RetainUntilAck, 3600);
    topic.add_subscription("A").unwrap();
    let mut dispatch = topic.new_subscription_dispatch("A").unwrap();
    topic.store_message(event_message(0, 10), 1000).unwrap();
    assert!(dispatch.next_message(&mut topic).unwrap().is_some());
    assert!(!topic.is_shut_down());
    topic.shutdown();
    assert!(topic.is_shut_down());
    assert!(matches!(topic.lifecycle_step(LifecycleEvent::Tick { now: 2000 }), LifecycleAction::Stop));
    assert_eq!(topic.store_message(event_message(1, 10), 1001).unwrap_err().kind(), "shutting down");
    assert_eq!(topic.add_subscription("B").unwrap_err().kind(), "shutting down");
    assert_eq!(topic.get_last_acknowledged_segment("A").unwrap_err().kind(), "shutting down");
    assert_eq!(topic.new_subscription_dispatch("A").unwrap_err().kind(), "shutting down");
    assert_eq!(topic.acknowledge("A", 1).unwrap_err().kind(), "shutting down");
    assert_eq!(dispatch.next_message(&mut topic).unwrap_err().kind(), "shutting down");
    assert_eq!(dispatch.acknowledge(&mut topic, 0).unwrap_err().kind(), "shutting down");
    assert_eq!(topic.topic_store().writable_segment().unwrap().len(), 1);
}

#[test]
fn a_shutdown_event_shuts_the_topic_down() {
    let mut topic = topic_with(RetentionPolicy::RetainUntilExpire, 1);
    assert!(matches!(topic.lifecycle_step(LifecycleEvent::Shutdown), LifecycleAction::Stop));
    assert!(topic.is_shut_down());
    assert!(matches!(topic.lifecycle_step(LifecycleEvent::Shutdown), LifecycleAction::Stop));
}

#[test]
fn reclaimed_segments_are_gone_from_both_tiers_of_the_cache() {
    let cache = TopicCache::new(InMemoryStorage::new(), 100, 10);
    let mut store = TopicStore::new(TOPIC, cache, ReliableOptions::new(0, RetentionPolicy::RetainUntilExpire, 5));
    for seq in 0..3u64 {
        store.store_message(event_message(seq, 1), 100 + seq).unwrap();
    }
    // read segment 1, so that the memory tier has served it
    assert_eq!(store.get_next_segment(Some(0)).unwrap().unwrap().id(), 1);
    assert_eq!(store.cleanup_expired_segments(106), vec![0, 1]);
    assert_eq!(store.segments_index(), &vec![(2, 102), (3, 0)]);
    assert_eq!(store.topic_cache().storage().len(), 1);
    assert!(store.read_segment(0).unwrap().is_none());
    assert!(store.read_segment(1).unwrap().is_none());
    assert!(store.topic_cache().storage().get_segment(TOPIC, 1).unwrap().is_none());
}
