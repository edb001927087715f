//! The two-tier segment cache: a bounded, idle-expiring memory cache in
//! front of a storage backend.

use crate::errors::ReliableDispatchError;
use crate::segment::Segment;
use crate::segment_key::{make_segment_key, segment_key};
use crate::storage_backend::{all_closed, lookup, SegmentKey, StorageBackend, StorageFailure};
use moka::sync::Cache;
use std::sync::Arc;
use std::time::Duration;
use vstd::prelude::*;

verus! {

/// The memory cache, opaque to the verifier.
#[verifier::external_type_specification]
#[verifier::external_body]
#[verifier::reject_recursive_types(K)]
#[verifier::reject_recursive_types(V)]
#[verifier::reject_recursive_types(S)]
pub struct ExCache<K, V, S>(Cache<K, V, S>);

/// The segments written to the memory cache and not removed from it since,
/// by key. The cache itself may drop any of them at any moment, for want of
/// room or for idleness: a lookup serves the segment written or nothing.
pub uninterp spec fn cached_segments(cache: Cache<String, Arc<Segment>>) -> Map<
    Seq<char>,
    Segment,
>;

/// The longest idle time that the memory cache can be built with, in
/// seconds: a thousand years.
pub const MAX_IDLE_SECS: u64 = 31_536_000_000;

/// `moka::sync::Cache::builder`, with `max_capacity` and `time_to_idle` set,
/// then `build`: a new cache with nothing written to it. `build` panics on an
/// idle time above a thousand years, which `requires` leaves out.
#[verifier::external_body]
fn memory_cache_new(max_capacity: u64, idle_secs: u64) -> (memory: Cache<String, Arc<Segment>>)
    requires
        idle_secs <= MAX_IDLE_SECS,
    ensures
        (cached_segments(memory) == Map::<Seq<char>, Segment>::empty()),
{
    Cache::builder().max_capacity(max_capacity).time_to_idle(Duration::from_secs(idle_secs)).build()
}

/// `moka::sync::Cache::get`: a clone of the value under `key`, where the
/// cache still holds it. What it serves is what was last written under the
/// key; whether it serves anything is the cache's own decision.
#[verifier::external_body]
fn memory_cache_get(cache: &Cache<String, Arc<Segment>>, key: &str) -> (hit: Option<Arc<Segment>>)
    ensures
        hit matches Some(segment) ==> cached_segments(*cache).contains_key(key@)
            && cached_segments(*cache)[key@] == *segment,
{
    cache.get(key)
}

/// `moka::sync::Cache::insert`: writes `segment` under `key`, in place of
/// what was written there.
#[verifier::external_body]
fn memory_cache_insert(cache: &mut Cache<String, Arc<Segment>>, key: String, segment: Arc<Segment>)
    ensures
        cached_segments(*final(cache)) == cached_segments(*old(cache)).insert(key@, *segment),
{
    cache.insert(key, segment)
}

/// `moka::sync::Cache::remove`: discards what is written under `key`.
#[verifier::external_body]
fn memory_cache_remove(cache: &mut Cache<String, Arc<Segment>>, key: &str)
    ensures
        cached_segments(*final(cache)) == cached_segments(*old(cache)).remove(key@),
{
    cache.remove(key);
}

/// The segment that a shared handle leads to.
pub open spec fn segment_in(handle: Arc<Segment>) -> Segment {
    *handle
}

/// A memory cache in front of a storage backend. Open segments live in
/// memory only; a closed segment is also written through to the backend, so
/// that the backend only ever receives segments that no longer change.
#[derive(Debug)]
pub struct TopicCache<B: StorageBackend> {
    memory_cache: Cache<String, Arc<Segment>>,
    storage: B,
}

impl<B: StorageBackend> TopicCache<B> {
    /// What has been written to the memory tier, by key.
    pub closed spec fn memory(&self) -> Map<Seq<char>, Segment> {
        cached_segments(self.memory_cache)
    }

    /// What the backend holds.
    pub closed spec fn backend(&self) -> Map<SegmentKey, Segment> {
        self.storage.segments()
    }

    /// Whether the backend never fails.
    pub closed spec fn reliable(&self) -> bool {
        self.storage.reliable()
    }

    /// The failures that the backend may report.
    pub closed spec fn failures(&self) -> Set<StorageFailure> {
        self.storage.failures()
    }

    /// Whether `error` is how the cache reports a failure of its backend: a
    /// storage error with the message of a failure that the backend may
    /// report.
    pub open spec fn failed_with(&self, error: ReliableDispatchError) -> bool {
        exists|failure: StorageFailure| #[trigger]
            self.failures().contains(failure) && error == ReliableDispatchError::StorageError(
                failure.message,
            )
    }

    /// The cache's validity: that of its backend, and of every segment
    /// written to the memory tier.
    pub closed spec fn wf(&self) -> bool {
        &&& self.storage.inv()
        &&& forall|key: Seq<char>| #[trigger]
            self.memory().contains_key(key) ==> self.memory()[key].wf()
    }

    /// Writing a valid segment to the memory tier of a valid cache leaves
    /// every segment there valid.
    proof fn lemma_written(&self, after: Self, key: Seq<char>, segment: Segment)
        requires
            self.wf(),
            segment.wf(),
            after.memory() == self.memory().insert(key, segment),
        ensures
            forall|other: Seq<char>| #[trigger]
                after.memory().contains_key(other) ==> after.memory()[other].wf(),
    {
        assert forall|other: Seq<char>| #[trigger]
            after.memory().contains_key(other) implies after.memory()[other].wf() by {
            if other != key {
                assert(self.memory().contains_key(other));
            }
        }
    }

    /// A cache over `storage` whose memory tier holds at most `max_capacity`
    /// segments and drops a segment that has not been used for
    /// `idle_time_minutes`.
    pub fn new(storage: B, max_capacity: u64, idle_time_minutes: u64) -> (cache: Self)
        requires
            storage.inv(),
            idle_time_minutes * 60 <= MAX_IDLE_SECS,
        ensures
            cache.wf(),
            cache.memory() == Map::<Seq<char>, Segment>::empty(),
            cache.backend() == storage.segments(),
            cache.reliable() == storage.reliable(),
            cache.failures() == storage.failures(),
    {
        let memory_cache = memory_cache_new(max_capacity, idle_time_minutes * 60);
        TopicCache { memory_cache, storage }
    }

    /// The backend behind the cache.
    pub fn storage(&self) -> (storage: &B)
        ensures
            storage.segments() == self.backend(),
            storage.reliable() == self.reliable(),
            storage.failures() == self.failures(),
            self.wf() ==> storage.inv(),
    {
        &self.storage
    }

    /// Answers a lookup of segment `id` of `topic_name`, given what the
    /// memory tier served for its key. A hit is the answer. On a miss the
    /// backend is asked, and what it finds is written to the memory tier
    /// before it is returned.
    pub fn resolve_lookup(&mut self, hit: Option<Arc<Segment>>, topic_name: &str, id: usize) -> (result:
        Result<Option<Arc<Segment>>, ReliableDispatchError>)
        requires
            old(self).wf(),
        ensures
            final(self).wf(),
            final(self).backend() == old(self).backend(),
            final(self).reliable() == old(self).reliable(),
            final(self).failures() == old(self).failures(),
            result matches Ok(Some(segment)) ==> hit is Some || segment.wf(),
            hit is Some ==> result == Ok::<Option<Arc<Segment>>, ReliableDispatchError>(hit)
                && final(self).memory() == old(self).memory(),
            hit is None ==> match result {
                Ok(Some(segment)) => lookup(old(self).backend(), (topic_name@, id)) == Some(
                    *segment,
                ) && final(self).memory() == old(self).memory().insert(
                    segment_key(topic_name@, id),
                    *segment,
                ),
                Ok(None) => lookup(old(self).backend(), (topic_name@, id)) is None
                    && final(self).memory() == old(self).memory(),
                Err(error) => old(self).failed_with(error) && final(self).memory() == old(self).memory(),
            },
            old(self).reliable() ==> result is Ok,
    {
        match hit {
            Some(segment) => Ok(Some(segment)),
            None => match self.storage.get_segment(topic_name, id) {
                Ok(Some(segment)) => {
                    let key = make_segment_key(topic_name, id);
                    memory_cache_insert(&mut self.memory_cache, key, segment.clone());
                    proof {
                        let ghost written = *segment;
                        old(self).lemma_written(*self, segment_key(topic_name@, id), written);
                    }
                    Ok(Some(segment))
                },
                Ok(None) => Ok(None),
                Err(failure) => Err(ReliableDispatchError::from_storage_failure(failure)),
            },
        }
    }

    /// Segment `id` of `topic_name`: from memory where the memory tier
    /// serves it, else from the backend.
    pub fn get_segment(&mut self, topic_name: &str, id: usize) -> (result: Result<
        Option<Arc<Segment>>,
        ReliableDispatchError,
    >)
        requires
            old(self).wf(),
        ensures
            final(self).wf(),
            final(self).backend() == old(self).backend(),
            final(self).reliable() == old(self).reliable(),
            final(self).failures() == old(self).failures(),
            result matches Ok(Some(segment)) ==> segment.wf(),
            match result {
                Ok(Some(segment)) => {
                    ||| lookup(old(self).memory(), segment_key(topic_name@, id)) == Some(*segment)
                        && final(self).memory() == old(self).memory()
                    ||| lookup(old(self).backend(), (topic_name@, id)) == Some(*segment)
                        && final(self).memory() == old(self).memory().insert(
                        segment_key(topic_name@, id),
                        *segment,
                    )
                },
                Ok(None) => lookup(old(self).backend(), (topic_name@, id)) is None
                    && final(self).memory() == old(self).memory(),
                Err(error) => old(self).failed_with(error) && final(self).memory() == old(self).memory(),
            },
            old(self).reliable() ==> result is Ok,
    {
        let key = make_segment_key(topic_name, id);
        let hit = memory_cache_get(&self.memory_cache, key.as_str());
        self.resolve_lookup(hit, topic_name, id)
    }

    /// Writes `segment` to the memory tier and, if and only if it is closed,
    /// through to the backend.
    pub fn put_segment(&mut self, topic_name: &str, id: usize, segment: Arc<Segment>) -> (result:
        Result<(), ReliableDispatchError>)
        requires
            old(self).wf(),
            segment.wf(),
        ensures
            final(self).wf(),
            final(self).reliable() == old(self).reliable(),
            final(self).failures() == old(self).failures(),
            final(self).memory() == old(self).memory().insert(
                segment_key(topic_name@, id),
                *segment,
            ),
            segment@.close_time == 0 ==> result is Ok && final(self).backend() == old(self).backend(),
            segment@.close_time > 0 ==> match result {
                Ok(_) => final(self).backend() == old(self).backend().insert(
                    (topic_name@, id),
                    *segment,
                ),
                Err(error) => old(self).failed_with(error) && final(self).backend() == old(self).backend(),
            },
            old(self).reliable() ==> result is Ok,
            all_closed(old(self).backend()) ==> all_closed(final(self).backend()),
    {
        let key = make_segment_key(topic_name, id);
        memory_cache_insert(&mut self.memory_cache, key, segment.clone());
        let ghost written = segment_in(segment);
        let result = if segment.close_time() > 0 {
            match self.storage.put_segment(topic_name, id, segment) {
                Ok(_) => Ok(()),
                Err(failure) => {
                    assert(old(self).failures().contains(failure));
                    Err(ReliableDispatchError::from_storage_failure(failure))
                },
            }
        } else {
            Ok(())
        };
        proof {
            old(self).lemma_written(*self, segment_key(topic_name@, id), written);
        }
        result
    }

    /// Drops segment `id` of `topic_name` from the memory tier and deletes it
    /// from the backend. A segment that the backend does not know is no
    /// error.
    pub fn remove_segment(&mut self, topic_name: &str, id: usize) -> (result: Result<
        (),
        ReliableDispatchError,
    >)
        requires
            old(self).wf(),
        ensures
            final(self).wf(),
            final(self).reliable() == old(self).reliable(),
            final(self).failures() == old(self).failures(),
            final(self).memory() == old(self).memory().remove(segment_key(topic_name@, id)),
            match result {
                Ok(_) => final(self).backend() == old(self).backend().remove((topic_name@, id)),
                Err(error) => old(self).failed_with(error) && final(self).backend() == old(self).backend(),
            },
            old(self).reliable() ==> result is Ok,
            all_closed(old(self).backend()) ==> all_closed(final(self).backend()),
    {
        let key = make_segment_key(topic_name, id);
        memory_cache_remove(&mut self.memory_cache, key.as_str());
        let result = match self.storage.remove_segment(topic_name, id) {
            Ok(_) => Ok(()),
            Err(failure) => Err(ReliableDispatchError::from_storage_failure(failure)),
        };
        proof {
            assert forall|other: Seq<char>| #[trigger]
                self.memory().contains_key(other) implies self.memory()[other].wf() by {
                assert(old(self).memory().contains_key(other));
            }
        }
        result
    }
}

} // verus!
