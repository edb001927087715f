use danube_reliable_dispatch::options::{ReliableOptions, RetentionPolicy};
use danube_reliable_dispatch::storage_backend::{InMemoryStorage, StorageBackend, UnreliableStorage};
use danube_reliable_dispatch::topic_cache::TopicCache;
use danube_reliable_dispatch::topic_storage::TopicStore;
use danube_reliable_dispatch::segment::Segment;
use danube_reliable_dispatch::{MessageID, StreamMessage};
use std::collections::HashMap;
use std::sync::Arc;

const TOPIC: &str = "/default/orders";

fn store_message_of(producer_id: u64, topic_seq: u64, payload_len: usize) -> StreamMessage {
    StreamMessage {
        msg_id: MessageID { producer_id, topic_seq, segment_id: 0, segment_offset: 0 },
        payload: vec![1; payload_len],
        attributes: HashMap::new(),
        publish_time: 1,
    }
}

fn memory_store(segment_size_mb: usize) -> TopicStore<InMemoryStorage> {
    let cache = TopicCache::new(InMemoryStorage::new(), 100, 10);
    TopicStore::new(TOPIC, cache, ReliableOptions::new(segment_size_mb, RetentionPolicy::RetainUntilAck, 3600))
}

#[test]
fn new_store_has_no_segment() {
    let store = memory_store(1);
    assert_eq!(store.topic_name(), TOPIC);
    assert!(store.segments_index().is_empty());
    assert_eq!(store.current_segment_id(), 0);
    assert_eq!(store.segment_size_bytes(), 1024 * 1024);
    assert_eq!(store.retention_period_secs(), 3600);
    assert!(store.writable_segment().is_none());
}

#[test]
fn segment_size_is_given_in_megabytes() {
    assert_eq!(memory_store(20).segment_size_bytes(), 20 * 1024 * 1024);
    assert_eq!(memory_store(0).segment_size_bytes(), 0);
}

#[test]
fn get_next_segment_on_empty_topic_is_none() {
    let mut store = memory_store(1);
    assert!(store.get_next_segment(None).unwrap().is_none());
    assert!(store.get_next_segment(Some(0)).unwrap().is_none());
    assert!(!store.contains_segment(0).unwrap());
}

#[test]
fn first_store_creates_segment_zero() {
    let mut store = memory_store(1);
    store.store_message(store_message_of(1, 1, 10), 1000).unwrap();
    assert_eq!(store.segments_index(), &vec![(0, 0)]);
    assert_eq!(store.current_segment_id(), 0);
    let writable = store.writable_segment().unwrap();
    assert_eq!(writable.id(), 0);
    assert_eq!(writable.len(), 1);
    assert_eq!(writable.close_time(), 0);
    // the open segment is in memory only
    assert_eq!(store.topic_cache().storage().len(), 0);
}

#[test]
fn store_assigns_segment_id_and_offset() {
    let mut store = memory_store(1);
    for seq in 0..5u64 {
        let mut message = store_message_of(9, seq, 8);
        message.msg_id.segment_id = 99;
        message.msg_id.segment_offset = 99;
        store.store_message(message, 1000).unwrap();
    }
    let writable = store.writable_segment().unwrap();
    for offset in 0..5usize {
        let id = writable.message(offset).msg_id;
        assert_eq!(id.segment_id, 0);
        assert_eq!(id.segment_offset, offset as u64);
        assert_eq!(id.producer_id, 9);
        assert_eq!(id.topic_seq, offset as u64);
    }
}

#[test]
fn one_megabyte_segments_of_two_kilobyte_messages() {
    let mut store = memory_store(1);
    for seq in 0..1000u64 {
        store.store_message(store_message_of(1, seq, 2048), 5000 + seq).unwrap();
    }
    // exactly two segments: segment 0 closed at a megabyte, segment 1 open
    assert_eq!(store.segments_index().len(), 2);
    assert_eq!(store.segments_index()[0].0, 0);
    assert_eq!(store.segments_index()[0].1, 5512);
    assert_eq!(store.segments_index()[1], (1, 0));
    assert_eq!(store.current_segment_id(), 1);
    assert_eq!(store.writable_segment().unwrap().len(), 488);

    let first = store.get_next_segment(None).unwrap().unwrap();
    assert_eq!(first.id(), 0);
    assert_eq!(first.len(), 512);
    assert_eq!(first.current_size(), 1024 * 1024);
    assert_eq!(first.close_time(), 5512);
    let second = store.get_next_segment(Some(0)).unwrap().unwrap();
    assert_eq!(second.id(), 1);
    assert_eq!(second.len(), 488);
    assert_eq!(second.close_time(), 0);
    assert!(store.get_next_segment(Some(1)).unwrap().is_none());
    // the closed segment is in the backend, the open one is not
    let backend = store.topic_cache().storage();
    assert_eq!(backend.len(), 1);
    assert_eq!(backend.get_segment(TOPIC, 0).unwrap().unwrap().len(), 512);
}

#[test]
fn rollover_puts_the_pending_message_first_in_the_next_segment() {
    let mut store = memory_store(1);
    store.store_message(store_message_of(1, 0, 1024 * 1024), 10).unwrap();
    store.store_message(store_message_of(1, 1, 3), 20).unwrap();
    assert_eq!(store.segments_index(), &vec![(0, 20), (1, 0)]);
    let writable = store.writable_segment().unwrap();
    assert_eq!(writable.id(), 1);
    assert_eq!(writable.len(), 1);
    assert_eq!(writable.message(0).msg_id, MessageID { producer_id: 1, topic_seq: 1, segment_id: 1, segment_offset: 0 });
}

#[test]
fn a_segment_overshoots_by_at_most_its_last_message() {
    let mut store = memory_store(1);
    let limit = store.segment_size_bytes();
    store.store_message(store_message_of(1, 0, limit - 1), 10).unwrap();
    store.store_message(store_message_of(1, 1, 5000), 11).unwrap();
    // below the limit before the second append, so both are in segment 0
    assert_eq!(store.segments_index(), &vec![(0, 0)]);
    assert_eq!(store.writable_segment().unwrap().current_size(), limit - 1 + 5000);
    store.store_message(store_message_of(1, 2, 1), 12).unwrap();
    assert_eq!(store.segments_index(), &vec![(0, 12), (1, 0)]);
    let closed = store.get_next_segment(None).unwrap().unwrap();
    assert_eq!(closed.current_size(), limit - 1 + 5000);
    assert_eq!(closed.len(), 2);
}

#[test]
fn zero_segment_size_rolls_over_on_every_store() {
    let mut store = memory_store(0);
    store.store_message(store_message_of(1, 0, 4), 10).unwrap();
    store.store_message(store_message_of(1, 1, 4), 11).unwrap();
    assert_eq!(store.segments_index(), &vec![(0, 10), (1, 11), (2, 0)]);
    let first = store.get_next_segment(None).unwrap().unwrap();
    assert_eq!(first.len(), 0);
    assert_eq!(first.close_time(), 10);
    assert_eq!(store.writable_segment().unwrap().message(0).msg_id.segment_id, 2);
}

#[test]
fn rollover_at_time_zero_is_refused() {
    let mut store = memory_store(1);
    store.store_message(store_message_of(1, 0, 1024 * 1024), 10).unwrap();
    let error = store.store_message(store_message_of(1, 1, 3), 0).unwrap_err();
    assert_eq!(error.kind(), "invariant violation");
    assert_eq!(store.segments_index(), &vec![(0, 0)]);
    assert_eq!(store.current_segment_id(), 0);
    assert_eq!(store.writable_segment().unwrap().len(), 1);
    // the store goes through at a later time
    store.store_message(store_message_of(1, 1, 3), 30).unwrap();
    assert_eq!(store.segments_index(), &vec![(0, 30), (1, 0)]);
}

#[test]
fn failed_rollover_leaves_the_log_as_it_was() {
    let cache = TopicCache::new(UnreliableStorage::new(0, 1, false), 100, 10);
    let mut store = TopicStore::new(TOPIC, cache, ReliableOptions::new(1, RetentionPolicy::RetainUntilAck, 3600));
    store.store_message(store_message_of(1, 0, 1024 * 1024), 10).unwrap();
    let error = store.store_message(store_message_of(1, 1, 3), 20).unwrap_err();
    assert_eq!(error.kind(), "storage error");
    assert_eq!(store.segments_index(), &vec![(0, 0)]);
    assert_eq!(store.current_segment_id(), 0);
    let writable = store.writable_segment().unwrap();
    assert_eq!(writable.len(), 1);
    assert_eq!(writable.close_time(), 0);
    assert_eq!(store.topic_cache().storage().len(), 0);
    // the next store tries the rollover again, and the backend takes it
    store.store_message(store_message_of(1, 1, 3), 21).unwrap();
    assert_eq!(store.segments_index(), &vec![(0, 21), (1, 0)]);
    assert_eq!(store.topic_cache().storage().len(), 1);
    assert_eq!(store.get_next_segment(None).unwrap().unwrap().close_time(), 21);
}

#[test]
fn failed_lookup_on_first_store_is_a_storage_error() {
    let cache = TopicCache::new(UnreliableStorage::new(0, 0, true), 100, 10);
    let mut store = TopicStore::new(TOPIC, cache, ReliableOptions::new(1, RetentionPolicy::RetainUntilAck, 3600));
    let error = store.store_message(store_message_of(1, 0, 3), 20).unwrap_err();
    assert_eq!(error.kind(), "storage error");
    assert!(store.segments_index().is_empty());
    assert!(store.writable_segment().is_none());
}

#[test]
fn a_segment_found_in_the_cache_is_taken_over_without_an_index_entry() {
    let mut kept = Segment::new(0);
    kept.add_message(store_message_of(3, 0, 5)).unwrap();
    kept.close(77);
    let mut storage = InMemoryStorage::new();
    storage.put_segment(TOPIC, 0, Arc::new(kept)).unwrap();
    let cache = TopicCache::new(storage, 100, 10);
    let mut store = TopicStore::new(TOPIC, cache, ReliableOptions::new(1, RetentionPolicy::RetainUntilAck, 3600));
    store.get_or_create_segment().unwrap();
    assert!(store.segments_index().is_empty());
    let writable = store.writable_segment().unwrap();
    assert_eq!(writable.len(), 1);
    assert_eq!(writable.close_time(), 77);
    // the segment taken over is closed, so it takes no message
    let error = store.store_message(store_message_of(1, 0, 3), 100).unwrap_err();
    assert_eq!(error.kind(), "invariant violation");
}

#[test]
fn get_next_segment_follows_the_index() {
    let mut store = memory_store(0);
    for seq in 0..3u64 {
        store.store_message(store_message_of(1, seq, 4), 10 + seq).unwrap();
    }
    // index: 0 (empty, closed), 1, 2 closed, 3 writable
    assert_eq!(store.segments_index().len(), 4);
    assert_eq!(store.get_next_segment(None).unwrap().unwrap().id(), 0);
    assert_eq!(store.get_next_segment(Some(0)).unwrap().unwrap().id(), 1);
    assert_eq!(store.get_next_segment(Some(1)).unwrap().unwrap().id(), 2);
    let last = store.get_next_segment(Some(2)).unwrap().unwrap();
    assert_eq!(last.id(), 3);
    assert_eq!(last.close_time(), 0);
    assert!(store.get_next_segment(Some(3)).unwrap().is_none());
    assert!(store.get_next_segment(Some(17)).unwrap().is_none());
    assert!(store.contains_segment(2).unwrap());
    assert!(!store.contains_segment(4).unwrap());
}

#[test]
fn read_segment_serves_the_segment_as_it_stands() {
    let mut store = memory_store(1);
    store.store_message(store_message_of(1, 0, 4), 10).unwrap();
    assert_eq!(store.read_segment(0).unwrap().unwrap().len(), 1);
    store.store_message(store_message_of(1, 1, 4), 11).unwrap();
    assert_eq!(store.read_segment(0).unwrap().unwrap().len(), 2);
    assert!(store.read_segment(1).unwrap().is_none());
}

#[test]
fn interleaved_producers_fill_contiguous_segments() {
    let mut store = memory_store(1);
    let producers = 8u64;
    let per_producer = 10_000u64;
    for seq in 0..per_producer {
        for producer in 0..producers {
            store.store_message(store_message_of(producer, seq, 64), 100 + seq).unwrap();
        }
    }
    let index = store.segments_index().clone();
    for (position, entry) in index.iter().enumerate() {
        assert_eq!(entry.0, position);
        assert_eq!(entry.1 == 0, position == index.len() - 1);
    }
    let mut total = 0usize;
    let mut next_seq = vec![0u64; producers as usize];
    let mut cursor = None;
    while let Some(segment) = store.get_next_segment(cursor).unwrap() {
        for offset in 0..segment.len() {
            let id = segment.message(offset).msg_id;
            assert_eq!(id.segment_id, segment.id() as u64);
            assert_eq!(id.segment_offset, offset as u64);
            // per producer, messages come in the order they were submitted
            assert_eq!(id.topic_seq, next_seq[id.producer_id as usize]);
            next_seq[id.producer_id as usize] += 1;
        }
        total += segment.len();
        cursor = Some(segment.id());
    }
    assert_eq!(total, 80_000);
}

#[test]
fn a_new_segment_is_written_to_the_memory_tier_only() {
    let mut store = memory_store(1);
    store.get_or_create_segment().unwrap();
    assert_eq!(store.segments_index(), &vec![(0, 0)]);
    assert_eq!(store.topic_cache().storage().len(), 0);
    let writable = store.writable_segment().unwrap();
    assert_eq!((writable.id(), writable.len(), writable.close_time(), writable.next_offset()), (0, 0, 0, 0));
    // an open segment put into a cache is served from memory, with an empty backend
    let mut cache = TopicCache::new(InMemoryStorage::new(), 100, 10);
    cache.put_segment(TOPIC, 0, Arc::new(Segment::new(0))).unwrap();
    assert_eq!(cache.storage().len(), 0);
    let served = cache.get_segment(TOPIC, 0).unwrap().unwrap();
    assert_eq!((served.id(), served.len(), served.close_time()), (0, 0, 0));
}

#[test]
fn a_rollover_keeps_the_messages_of_the_segment_it_closes() {
    let mut store = memory_store(1);
    for seq in 0..600u64 {
        store.store_message(store_message_of(2, seq, 2048), 70 + seq).unwrap();
    }
    let closed = store.topic_cache().storage().get_segment(TOPIC, 0).unwrap().unwrap();
    assert_eq!(closed.len(), 512);
    assert_eq!(closed.close_time(), 70 + 512);
    for offset in 0..512usize {
        let message = closed.message(offset);
        assert_eq!(message.msg_id, MessageID { producer_id: 2, topic_seq: offset as u64, segment_id: 0, segment_offset: offset as u64 });
        assert_eq!(message.payload.len(), 2048);
    }
    // later stores leave the closed segment as it is
    for seq in 600..1200u64 {
        store.store_message(store_message_of(2, seq, 2048), 5000).unwrap();
    }
    let again = store.get_next_segment(None).unwrap().unwrap();
    assert_eq!((again.len(), again.close_time(), again.current_size()), (512, 70 + 512, 1024 * 1024));
    assert_eq!(again.message(511).msg_id.topic_seq, 511);
}
