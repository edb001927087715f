use danube_reliable_dispatch::dispatch::SubscriptionDispatch;
use danube_reliable_dispatch::options::{ReliableOptions, RetentionPolicy};
use danube_reliable_dispatch::reliable_dispatch::{LifecycleEvent, ReliableDispatch};
use danube_reliable_dispatch::storage_backend::{InMemoryStorage, UnreliableStorage};
use danube_reliable_dispatch::topic_cache::TopicCache;
use danube_reliable_dispatch::{MessageID, ReliableDispatchError, StreamMessage};
use std::collections::HashMap;

const TOPIC: &str = "/default/feed";

fn feed_message(topic_seq: u64, payload_len: usize) -> StreamMessage {
    StreamMessage {
        msg_id: MessageID { producer_id: 4, topic_seq, segment_id: 0, segment_offset: 0 },
        payload: vec![3; payload_len],
        attributes: HashMap::new(),
        publish_time: 1,
    }
}

fn feed(policy: RetentionPolicy, segment_size_mb: usize) -> ReliableDispatch<InMemoryStorage> {
    let cache = TopicCache::new(InMemoryStorage::new(), 100, 10);
    ReliableDispatch::new(TOPIC, ReliableOptions::new(segment_size_mb, policy, 1), cache)
}

fn drain(dispatch: &mut SubscriptionDispatch, topic: &mut ReliableDispatch<InMemoryStorage>) -> Vec<MessageID> {
    let mut seen = Vec::new();
    while let Some(message) = dispatch.next_message(topic).unwrap() {
        seen.push(message.msg_id);
    }
    seen
}

#[test]
fn dispatch_needs_a_known_subscription() {
    let mut topic = feed(RetentionPolicy::RetainUntilAck, 1);
    match topic.new_subscription_dispatch("nobody") {
        Err(ReliableDispatchError::SubscriptionNotFound(name)) => assert_eq!(name, "nobody"),
        _ => panic!("expected SubscriptionNotFound"),
    }
    match topic.get_last_acknowledged_segment("nobody") {
        Err(ReliableDispatchError::SubscriptionNotFound(name)) => assert_eq!(name, "nobody"),
        _ => panic!("expected SubscriptionNotFound"),
    }
    topic.add_subscription("sub").unwrap();
    assert_eq!(topic.get_last_acknowledged_segment("sub").unwrap(), 0);
    let dispatch = topic.new_subscription_dispatch("sub").unwrap();
    assert_eq!(dispatch.current_segment_id(), None);
    assert_eq!(dispatch.last_acknowledged(), None);
}

#[test]
fn add_subscription_is_idempotent() {
    let mut topic = feed(RetentionPolicy::RetainUntilAck, 1);
    topic.add_subscription("sub").unwrap();
    topic.acknowledge("sub", 4).unwrap();
    topic.add_subscription("sub").unwrap();
    assert_eq!(topic.get_last_acknowledged_segment("sub").unwrap(), 4);
}

#[test]
fn empty_topic_has_nothing_to_dispatch() {
    let mut topic = feed(RetentionPolicy::RetainUntilAck, 1);
    topic.add_subscription("sub").unwrap();
    let mut dispatch = topic.new_subscription_dispatch("sub").unwrap();
    assert!(dispatch.next_message(&mut topic).unwrap().is_none());
    assert_eq!(dispatch.current_segment_id(), None);
}

#[test]
fn dispatch_sees_messages_appended_to_the_open_segment() {
    let mut topic = feed(RetentionPolicy::RetainUntilAck, 1);
    topic.add_subscription("sub").unwrap();
    let mut dispatch = topic.new_subscription_dispatch("sub").unwrap();
    topic.store_message(feed_message(0, 10), 100).unwrap();
    topic.store_message(feed_message(1, 10), 100).unwrap();
    let seen = drain(&mut dispatch, &mut topic);
    assert_eq!(seen.len(), 2);
    assert_eq!((seen[1].segment_id, seen[1].segment_offset, seen[1].topic_seq), (0, 1, 1));
    topic.store_message(feed_message(2, 10), 101).unwrap();
    let seen = drain(&mut dispatch, &mut topic);
    assert_eq!(seen.len(), 1);
    assert_eq!((seen[0].segment_id, seen[0].segment_offset, seen[0].topic_seq), (0, 2, 2));
    assert!(dispatch.next_message(&mut topic).unwrap().is_none());
}

#[test]
fn every_subscription_sees_every_message_once_and_in_order() {
    let mut topic = feed(RetentionPolicy::RetainUntilAck, 1);
    topic.add_subscription("A").unwrap();
    topic.add_subscription("B").unwrap();
    let mut a = topic.new_subscription_dispatch("A").unwrap();
    let mut b = topic.new_subscription_dispatch("B").unwrap();
    let mut seen_a = Vec::new();
    for seq in 0..1500u64 {
        topic.store_message(feed_message(seq, 2048), 100 + seq).unwrap();
        if seq % 7 == 0 {
            seen_a.extend(drain(&mut a, &mut topic));
        }
    }
    seen_a.extend(drain(&mut a, &mut topic));
    let seen_b = drain(&mut b, &mut topic);
    assert_eq!(seen_a.len(), 1500);
    assert_eq!(seen_a, seen_b);
    for (position, id) in seen_a.iter().enumerate() {
        assert_eq!(id.topic_seq, position as u64);
        assert_eq!(id.segment_id, (position / 512) as u64);
        assert_eq!(id.segment_offset, (position % 512) as u64);
    }
    // strictly increasing pairs of segment id and offset
    for pair in seen_a.windows(2) {
        assert!((pair[0].segment_id, pair[0].segment_offset) < (pair[1].segment_id, pair[1].segment_offset));
    }
}

#[test]
fn acknowledged_segments_are_not_handed_out_again() {
    let mut topic = feed(RetentionPolicy::RetainUntilAck, 0);
    topic.add_subscription("A").unwrap();
    topic.add_subscription("B").unwrap();
    for seq in 0..6u64 {
        topic.store_message(feed_message(seq, 1), 100 + seq).unwrap();
    }
    // segments 1..=6 hold one message each; segment 0 is empty
    let mut a = topic.new_subscription_dispatch("A").unwrap();
    let first = a.next_message(&mut topic).unwrap().unwrap();
    assert_eq!(first.msg_id.segment_id, 1);
    a.acknowledge(&mut topic, 3).unwrap();
    assert_eq!(a.last_acknowledged(), Some(3));
    assert_eq!(topic.get_last_acknowledged_segment("A").unwrap(), 3);
    let next = a.next_message(&mut topic).unwrap().unwrap();
    assert_eq!(next.msg_id.segment_id, 4);
    // an earlier acknowledgement changes nothing
    a.acknowledge(&mut topic, 2).unwrap();
    assert_eq!(a.last_acknowledged(), Some(3));
    assert_eq!(topic.get_last_acknowledged_segment("A").unwrap(), 3);
    // after a rewind the acknowledged segments are still passed over
    a.rewind();
    assert_eq!(a.current_segment_id(), None);
    let seen = drain(&mut a, &mut topic);
    let segments: Vec<u64> = seen.iter().map(|id| id.segment_id).collect();
    assert_eq!(segments, vec![4, 5, 6]);
}

#[test]
fn acknowledging_segment_zero_is_remembered_by_the_dispatcher() {
    let mut topic = feed(RetentionPolicy::RetainUntilAck, 1);
    topic.add_subscription("A").unwrap();
    topic.store_message(feed_message(0, 1024 * 1024), 100).unwrap();
    topic.store_message(feed_message(1, 5), 101).unwrap();
    let mut a = topic.new_subscription_dispatch("A").unwrap();
    assert_eq!(a.next_message(&mut topic).unwrap().unwrap().msg_id.segment_id, 0);
    a.acknowledge(&mut topic, 0).unwrap();
    a.rewind();
    let seen = drain(&mut a, &mut topic);
    assert_eq!(seen.len(), 1);
    assert_eq!(seen[0].segment_id, 1);
}

#[test]
fn a_reclaimed_cursor_is_reported_and_a_rewind_recovers() {
    let mut topic = feed(RetentionPolicy::RetainUntilExpire, 0);
    topic.add_subscription("A").unwrap();
    let mut a = topic.new_subscription_dispatch("A").unwrap();
    topic.store_message(feed_message(0, 1), 100).unwrap();
    topic.store_message(feed_message(1, 1), 101).unwrap();
    // the dispatcher stands in segment 1 when the segment expires
    assert_eq!(a.next_message(&mut topic).unwrap().unwrap().msg_id.segment_id, 1);
    topic.store_message(feed_message(2, 1), 102).unwrap();
    topic.store_message(feed_message(3, 1), 103).unwrap();
    topic.lifecycle_step(LifecycleEvent::Tick { now: 102 });
    // segments 0 and 1 are a second old or more, segment 2 is not
    assert_eq!(topic.topic_store().segments_index(), &vec![(2, 102), (3, 103), (4, 0)]);
    match a.next_message(&mut topic) {
        Err(ReliableDispatchError::SegmentNotFound(id)) => assert_eq!(id, 1),
        _ => panic!("expected SegmentNotFound"),
    }
    a.rewind();
    let seen = drain(&mut a, &mut topic);
    let segments: Vec<u64> = seen.iter().map(|id| id.segment_id).collect();
    assert_eq!(segments, vec![2, 3, 4]);
}

#[test]
fn an_acknowledged_cursor_that_is_reclaimed_starts_again_by_itself() {
    let mut topic = feed(RetentionPolicy::RetainUntilAck, 0);
    topic.add_subscription("A").unwrap();
    let mut a = topic.new_subscription_dispatch("A").unwrap();
    for seq in 0..3u64 {
        topic.store_message(feed_message(seq, 1), 100 + seq).unwrap();
    }
    // segments 1, 2 and 3 hold one message each; 3 is writable
    assert_eq!(a.next_message(&mut topic).unwrap().unwrap().msg_id.segment_id, 1);
    a.acknowledge(&mut topic, 1).unwrap();
    topic.lifecycle_step(LifecycleEvent::Tick { now: 500 });
    assert_eq!(topic.topic_store().segments_index(), &vec![(2, 102), (3, 0)]);
    let seen = drain(&mut a, &mut topic);
    let positions: Vec<(u64, u64)> = seen.iter().map(|id| (id.segment_id, id.segment_offset)).collect();
    assert_eq!(positions, vec![(2, 0), (3, 0)]);
    assert_eq!(a.current_segment_id(), Some(3));
}

#[test]
fn nothing_is_left_only_at_the_end_of_the_log() {
    let mut topic = feed(RetentionPolicy::RetainUntilAck, 1);
    topic.add_subscription("A").unwrap();
    let mut a = topic.new_subscription_dispatch("A").unwrap();
    for seq in 0..700u64 {
        topic.store_message(feed_message(seq, 2048), 100).unwrap();
    }
    let mut handed = 0;
    while a.next_message(&mut topic).unwrap().is_some() {
        handed += 1;
    }
    assert_eq!(handed, 700);
    assert_eq!(a.current_segment_id(), Some(topic.topic_store().current_segment_id()));
}

#[test]
fn a_new_dispatcher_is_bound_to_the_cursor_of_its_subscription() {
    let mut topic = feed(RetentionPolicy::RetainUntilAck, 0);
    topic.add_subscription("A").unwrap();
    for seq in 0..6u64 {
        topic.store_message(feed_message(seq, 1), 100 + seq).unwrap();
    }
    let mut first = topic.new_subscription_dispatch("A").unwrap();
    assert_eq!(first.last_acknowledged(), None);
    first.acknowledge(&mut topic, 3).unwrap();
    // a second dispatcher for the subscription starts behind what was acknowledged
    let mut second = topic.new_subscription_dispatch("A").unwrap();
    assert_eq!(second.last_acknowledged(), Some(3));
    let segments: Vec<u64> = drain(&mut second, &mut topic).iter().map(|id| id.segment_id).collect();
    assert_eq!(segments, vec![4, 5, 6]);
    assert_eq!(SubscriptionDispatch::new("A", 0).last_acknowledged(), None);
    assert_eq!(SubscriptionDispatch::new("A", 7).last_acknowledged(), Some(7));
}

#[test]
fn dispatch_reports_backend_failures() {
    let cache = TopicCache::new(UnreliableStorage::new(0, 0, true), 1, 10);
    let mut topic = ReliableDispatch::new(TOPIC, ReliableOptions::new(1, RetentionPolicy::RetainUntilAck, 1), cache);
    assert_eq!(topic.store_message(feed_message(0, 1), 100).unwrap_err().kind(), "storage error");
}

#[test]
fn unknown_subscription_cannot_acknowledge() {
    let mut topic = feed(RetentionPolicy::RetainUntilAck, 1);
    let mut stray = SubscriptionDispatch::new("stray", 0);
    match stray.acknowledge(&mut topic, 1) {
        Err(ReliableDispatchError::SubscriptionNotFound(name)) => assert_eq!(name, "stray"),
        _ => panic!("expected SubscriptionNotFound"),
    }
    assert_eq!(stray.last_acknowledged(), None);
}

#[test]
fn error_kinds_are_named() {
    assert_eq!(ReliableDispatchError::StorageError("x".to_string()).kind(), "storage error");
    assert_eq!(ReliableDispatchError::SubscriptionNotFound("x".to_string()).kind(), "subscription not found");
    assert_eq!(ReliableDispatchError::SegmentNotFound(3).kind(), "segment not found");
    assert_eq!(ReliableDispatchError::InvariantViolation("x".to_string()).kind(), "invariant violation");
    assert_eq!(ReliableDispatchError::ShuttingDown.kind(), "shutting down");
}
