use danube_reliable_dispatch::segment::Segment;
use danube_reliable_dispatch::segment_key::make_segment_key;
use danube_reliable_dispatch::{MessageID, StreamMessage};
use std::collections::HashMap;

fn segment_message(payload_len: usize) -> StreamMessage {
    StreamMessage {
        msg_id: MessageID { producer_id: 7, topic_seq: 1, segment_id: 0, segment_offset: 0 },
        payload: vec![0xAB; payload_len],
        attributes: HashMap::new(),
        publish_time: 42,
    }
}

#[test]
fn new_segment_is_empty_and_open() {
    let segment = Segment::new(5);
    assert_eq!(segment.id(), 5);
    assert_eq!(segment.close_time(), 0);
    assert_eq!(segment.len(), 0);
    assert_eq!(segment.current_size(), 0);
    assert_eq!(segment.next_offset(), 0);
}

#[test]
fn add_message_counts_payload_bytes_and_offsets() {
    let mut segment = Segment::new(0);
    segment.add_message(segment_message(10)).unwrap();
    segment.add_message(segment_message(30)).unwrap();
    assert_eq!(segment.len(), 2);
    assert_eq!(segment.current_size(), 40);
    assert_eq!(segment.next_offset(), 2);
    assert_eq!(segment.message(1).payload.len(), 30);
}

#[test]
fn add_message_keeps_the_message_as_given() {
    let mut segment = Segment::new(9);
    let mut message = segment_message(3);
    message.attributes.insert("k".to_string(), "v".to_string());
    message.msg_id.segment_id = 77;
    message.msg_id.segment_offset = 88;
    segment.add_message(message).unwrap();
    let stored = segment.message(0);
    assert_eq!(stored.msg_id.segment_id, 77);
    assert_eq!(stored.msg_id.segment_offset, 88);
    assert_eq!(stored.msg_id.producer_id, 7);
    assert_eq!(stored.attributes.get("k"), Some(&"v".to_string()));
    assert_eq!(stored.publish_time, 42);
}

#[test]
fn is_full_at_the_threshold() {
    let mut segment = Segment::new(0);
    assert!(segment.is_full(0));
    assert!(!segment.is_full(1));
    segment.add_message(segment_message(100)).unwrap();
    assert!(!segment.is_full(101));
    assert!(segment.is_full(100));
    assert!(segment.is_full(99));
}

#[test]
fn closed_segment_rejects_appends() {
    let mut segment = Segment::new(0);
    segment.add_message(segment_message(1)).unwrap();
    segment.close(1234);
    assert_eq!(segment.close_time(), 1234);
    let error = segment.add_message(segment_message(1)).unwrap_err();
    assert_eq!(error.kind(), "invariant violation");
    assert_eq!(segment.len(), 1);
    assert_eq!(segment.current_size(), 1);
}

#[test]
fn close_time_is_set_once() {
    let mut segment = Segment::new(0);
    segment.close(10);
    segment.close(20);
    assert_eq!(segment.close_time(), 10);
}

#[test]
fn close_at_zero_leaves_the_segment_open() {
    let mut segment = Segment::new(0);
    segment.close(0);
    assert_eq!(segment.close_time(), 0);
    segment.add_message(segment_message(1)).unwrap();
    assert_eq!(segment.len(), 1);
}

#[test]
fn clone_copies_everything() {
    let mut segment = Segment::new(3);
    segment.add_message(segment_message(4)).unwrap();
    segment.close(9);
    let copy = segment.clone();
    assert_eq!(copy.id(), 3);
    assert_eq!(copy.close_time(), 9);
    assert_eq!(copy.len(), 1);
    assert_eq!(copy.current_size(), 4);
    assert_eq!(copy.next_offset(), 1);
    assert_eq!(copy.message(0).payload, vec![0xAB; 4]);
}

#[test]
fn message_stamp_sets_segment_and_offset_only() {
    let mut message = segment_message(2);
    message.stamp(4, 17);
    assert_eq!(message.msg_id, MessageID { producer_id: 7, topic_seq: 1, segment_id: 4, segment_offset: 17 });
    assert_eq!(message.size(), 2);
    assert_eq!(message.publish_time, 42);
}

#[test]
fn segment_key_is_topic_colon_decimal_id() {
    assert_eq!(make_segment_key("/default/topic", 0), "/default/topic:0");
    assert_eq!(make_segment_key("/default/topic", 7), "/default/topic:7");
    assert_eq!(make_segment_key("t", 10), "t:10");
    assert_eq!(make_segment_key("t", 1234567890), "t:1234567890");
    assert_eq!(make_segment_key("", 42), ":42");
    assert_eq!(make_segment_key("a:1", 2), "a:1:2");
    assert_eq!(make_segment_key("t", usize::MAX), format!("t:{}", usize::MAX));
}

#[test]
fn segment_keys_differ_for_different_segments() {
    assert_ne!(make_segment_key("t", 1), make_segment_key("t", 11));
    assert_ne!(make_segment_key("t:1", 1), make_segment_key("t", 11));
    assert_ne!(make_segment_key("t1", 1), make_segment_key("t", 11));
}
