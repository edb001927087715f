use danube_reliable_dispatch::segment::Segment;
use danube_reliable_dispatch::storage_backend::{InMemoryStorage, StorageBackend, StorageFailure, UnreliableStorage};
use danube_reliable_dispatch::ReliableDispatchError;
use danube_reliable_dispatch::topic_cache::TopicCache;
use std::sync::Arc;

fn closed_segment(id: usize, close_time: u64) -> Arc<Segment> {
    let mut segment = Segment::new(id);
    segment.close(close_time);
    Arc::new(segment)
}

#[test]
fn in_memory_storage_round_trip() {
    let mut storage = InMemoryStorage::new();
    assert_eq!(storage.len(), 0);
    storage.put_segment("topic", 3, closed_segment(3, 17)).unwrap();
    assert_eq!(storage.len(), 1);
    let found = storage.get_segment("topic", 3).unwrap().unwrap();
    assert_eq!(found.id(), 3);
    assert_eq!(found.close_time(), 17);
    assert!(storage.get_segment("topic", 4).unwrap().is_none());
    assert!(storage.get_segment("other", 3).unwrap().is_none());
}

#[test]
fn in_memory_storage_put_replaces() {
    let mut storage = InMemoryStorage::new();
    storage.put_segment("topic", 1, closed_segment(1, 5)).unwrap();
    storage.put_segment("topic", 1, closed_segment(1, 9)).unwrap();
    assert_eq!(storage.len(), 1);
    assert_eq!(storage.get_segment("topic", 1).unwrap().unwrap().close_time(), 9);
}

#[test]
fn in_memory_storage_remove_is_idempotent() {
    let mut storage = InMemoryStorage::new();
    storage.put_segment("topic", 3, closed_segment(3, 17)).unwrap();
    storage.put_segment("topic", 4, closed_segment(4, 18)).unwrap();
    storage.remove_segment("topic", 3).unwrap();
    storage.remove_segment("topic", 3).unwrap();
    storage.remove_segment("unknown", 0).unwrap();
    assert_eq!(storage.len(), 1);
    assert!(storage.get_segment("topic", 3).unwrap().is_none());
    assert_eq!(storage.get_segment("topic", 4).unwrap().unwrap().id(), 4);
}

#[test]
fn unreliable_storage_fails_as_scheduled() {
    let mut storage = UnreliableStorage::new(1, 2, false);
    storage.put_segment("topic", 9, closed_segment(9, 5)).unwrap();
    let first = storage.put_segment("topic", 0, closed_segment(0, 5)).unwrap_err();
    assert_eq!(first.kind, "unavailable");
    assert_eq!(first.message, "the backend is unavailable");
    assert!(storage.remove_segment("topic", 9).is_err());
    assert_eq!(storage.len(), 1);
    storage.put_segment("topic", 0, closed_segment(0, 5)).unwrap();
    storage.remove_segment("topic", 9).unwrap();
    assert_eq!(storage.len(), 1);
    assert_eq!(storage.get_segment("topic", 0).unwrap().unwrap().close_time(), 5);
    let mut blind = UnreliableStorage::new(0, 0, true);
    blind.put_segment("topic", 0, closed_segment(0, 5)).unwrap();
    assert!(blind.get_segment("topic", 0).is_err());
}

#[test]
fn cache_surfaces_backend_failure_as_storage_error() {
    let mut cache = TopicCache::new(UnreliableStorage::new(0, 1, true), 10, 1);
    let error = cache.get_segment("topic", 0).unwrap_err();
    assert_eq!(error.kind(), "storage error");
    let error = cache.put_segment("topic", 0, closed_segment(0, 3)).unwrap_err();
    assert_eq!(error.kind(), "storage error");
}

#[test]
fn cache_writes_closed_segments_through() {
    let mut cache = TopicCache::new(InMemoryStorage::new(), 10, 1);
    cache.put_segment("topic", 0, Arc::new(Segment::new(0))).unwrap();
    assert_eq!(cache.storage().len(), 0);
    cache.put_segment("topic", 1, closed_segment(1, 7)).unwrap();
    assert_eq!(cache.storage().len(), 1);
    assert_eq!(cache.get_segment("topic", 1).unwrap().unwrap().close_time(), 7);
    assert!(cache.storage().get_segment("topic", 0).unwrap().is_none());
}

#[test]
fn cache_remove_clears_both_tiers() {
    let mut cache = TopicCache::new(InMemoryStorage::new(), 10, 1);
    cache.put_segment("topic", 1, closed_segment(1, 7)).unwrap();
    cache.remove_segment("topic", 1).unwrap();
    assert_eq!(cache.storage().len(), 0);
    assert!(cache.get_segment("topic", 1).unwrap().is_none());
    cache.remove_segment("topic", 1).unwrap();
}

#[test]
fn cache_falls_back_to_backend_on_memory_miss() {
    let mut storage = InMemoryStorage::new();
    storage.put_segment("topic", 2, closed_segment(2, 11)).unwrap();
    let mut cache = TopicCache::new(storage, 10, 1);
    let found = cache.get_segment("topic", 2).unwrap().unwrap();
    assert_eq!(found.id(), 2);
    assert_eq!(found.close_time(), 11);
}

#[test]
fn cache_serves_open_segments_from_memory() {
    let mut cache = TopicCache::new(InMemoryStorage::new(), 10, 1);
    let mut open = Segment::new(4);
    open.add_message(danube_reliable_dispatch::StreamMessage {
        msg_id: danube_reliable_dispatch::MessageID { producer_id: 1, topic_seq: 2, segment_id: 4, segment_offset: 0 },
        payload: vec![9, 9],
        attributes: std::collections::HashMap::new(),
        publish_time: 3,
    })
    .unwrap();
    cache.put_segment("topic", 4, Arc::new(open)).unwrap();
    let found = cache.get_segment("topic", 4).unwrap().unwrap();
    assert_eq!(found.id(), 4);
    assert_eq!(found.len(), 1);
    assert_eq!(found.close_time(), 0);
    assert!(cache.get_segment("topic", 5).unwrap().is_none());
    assert!(cache.get_segment("other", 4).unwrap().is_none());
}

#[test]
fn a_storage_error_carries_the_message_of_the_backend() {
    let failure = StorageFailure { kind: "io".to_string(), message: "disk full".to_string() };
    match ReliableDispatchError::from_storage_failure(failure) {
        ReliableDispatchError::StorageError(text) => assert_eq!(text, "disk full"),
        _ => panic!("expected a storage error"),
    }
    let mut cache = TopicCache::new(UnreliableStorage::new(0, 2, true), 10, 1);
    for result in [
        cache.get_segment("topic", 0).map(|_| ()),
        cache.put_segment("topic", 0, closed_segment(0, 3)),
        cache.remove_segment("topic", 0),
    ] {
        match result {
            Err(ReliableDispatchError::StorageError(text)) => assert_eq!(text, "the backend is unavailable"),
            _ => panic!("expected a storage error"),
        }
    }
}

#[test]
fn cache_remove_clears_memory_even_where_the_backend_fails() {
    // the put goes through and the first removal fails
    let mut cache = TopicCache::new(UnreliableStorage::new(1, 1, false), 10, 1);
    cache.put_segment("topic", 1, closed_segment(1, 7)).unwrap();
    assert!(cache.remove_segment("topic", 1).is_err());
    // the backend still holds the segment
    assert_eq!(cache.storage().len(), 1);
    cache.remove_segment("topic", 1).unwrap();
    assert!(cache.get_segment("topic", 1).unwrap().is_none());
}
