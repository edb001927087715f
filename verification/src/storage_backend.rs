//! The storage backend: where closed segments are kept, keyed by topic and
//! segment id.

use crate::segment::Segment;
use std::sync::Arc;
use vstd::prelude::*;
use vstd::string::*;

verus! {

/// The key of a stored segment: the topic's name and the segment's id.
pub type SegmentKey = (Seq<char>, usize);

/// A failed backend operation.
#[derive(Debug)]
pub struct StorageFailure {
    pub kind: String,
    pub message: String,
}

/// Every segment in `segments` is closed.
pub open spec fn all_closed(segments: Map<SegmentKey, Segment>) -> bool {
    forall|key: SegmentKey| #[trigger]
        segments.contains_key(key) ==> segments[key]@.close_time > 0
}

/// What a lookup of `key` in `segments` finds.
pub open spec fn lookup<K>(segments: Map<K, Segment>, key: K) -> Option<Segment> {
    if segments.contains_key(key) {
        Some(segments[key])
    } else {
        None
    }
}

/// A store of whole segments. Any operation may fail; a failed operation
/// leaves the stored segments as they were. A backend that declares itself
/// reliable never fails.
pub trait StorageBackend: Sized {
    /// The segments that the backend holds.
    spec fn segments(&self) -> Map<SegmentKey, Segment>;

    /// Whether the backend never fails.
    spec fn reliable(&self) -> bool;

    /// The failures that the backend may report.
    spec fn failures(&self) -> Set<StorageFailure>;

    /// The backend's own validity.
    spec fn inv(&self) -> bool;

    /// The segment stored under `topic_name` and `id`, if there is one.
    fn get_segment(&self, topic_name: &str, id: usize) -> (result: Result<
        Option<Arc<Segment>>,
        StorageFailure,
    >)
        requires
            self.inv(),
        ensures
            self.reliable() ==> result is Ok,
            result matches Err(failure) ==> self.failures().contains(failure),
            result matches Ok(found) ==> match found {
                Some(segment) => segment.wf() && lookup(self.segments(), (topic_name@, id))
                    == Some(*segment),
                None => lookup(self.segments(), (topic_name@, id)) is None,
            },
    ;

    /// Stores `segment` under `topic_name` and `id`, in place of what was
    /// there.
    fn put_segment(&mut self, topic_name: &str, id: usize, segment: Arc<Segment>) -> (result:
        Result<(), StorageFailure>)
        requires
            old(self).inv(),
            segment.wf(),
        ensures
            final(self).inv(),
            final(self).reliable() == old(self).reliable(),
            final(self).failures() == old(self).failures(),
            old(self).reliable() ==> result is Ok,
            result matches Err(failure) ==> old(self).failures().contains(failure),
            result is Ok ==> final(self).segments() == old(self).segments().insert(
                (topic_name@, id),
                *segment,
            ),
            result is Err ==> final(self).segments() == old(self).segments(),
    ;

    /// Deletes what is stored under `topic_name` and `id`. Deleting an
    /// unknown key succeeds.
    fn remove_segment(&mut self, topic_name: &str, id: usize) -> (result: Result<
        (),
        StorageFailure,
    >)
        requires
            old(self).inv(),
        ensures
            final(self).inv(),
            final(self).reliable() == old(self).reliable(),
            final(self).failures() == old(self).failures(),
            old(self).reliable() ==> result is Ok,
            result matches Err(failure) ==> old(self).failures().contains(failure),
            result is Ok ==> final(self).segments() == old(self).segments().remove(
                (topic_name@, id),
            ),
            result is Err ==> final(self).segments() == old(self).segments(),
    ;
}

/// One stored segment with its key.
#[derive(Debug)]
pub struct StoredSegment {
    topic: String,
    id: usize,
    segment: Arc<Segment>,
}

impl StoredSegment {
    pub closed spec fn key(&self) -> SegmentKey {
        (self.topic@, self.id)
    }
}

/// A volatile backend that keeps the segments in memory. It never fails.
#[derive(Debug)]
pub struct InMemoryStorage {
    entries: Vec<StoredSegment>,
}

impl InMemoryStorage {
    /// Whether some entry stands under `key`.
    pub closed spec fn holds(&self, key: SegmentKey) -> bool {
        exists|i: int| 0 <= i < self.entries@.len() && (#[trigger] self.entries@[i]).key() == key
    }

    /// The position of the entry under `key`.
    pub closed spec fn position(&self, key: SegmentKey) -> int {
        choose|i: int| 0 <= i < self.entries@.len() && (#[trigger] self.entries@[i]).key() == key
    }

    /// No key occurs twice.
    pub closed spec fn keys_distinct(&self) -> bool {
        forall|i: int, j: int|
            0 <= i < j < self.entries@.len() ==> (#[trigger] self.entries@[i]).key() != (
            #[trigger] self.entries@[j]).key()
    }

    /// An empty backend.
    pub fn new() -> (storage: Self)
        ensures
            storage.inv(),
            storage.reliable(),
            storage.segments() == Map::<SegmentKey, Segment>::empty(),
    {
        let storage = InMemoryStorage { entries: Vec::new() };
        assert(storage.segments() =~= Map::<SegmentKey, Segment>::empty());
        storage
    }

    /// The number of segments held.
    pub fn len(&self) -> (n: usize)
        requires
            self.inv(),
        ensures
            n == self.segments().dom().len(),
    {
        proof {
            self.lemma_len();
        }
        self.entries.len()
    }

    proof fn lemma_len(&self)
        requires
            self.keys_distinct(),
        ensures
            self.segments().dom().finite(),
            self.segments().dom().len() == self.entries@.len(),
    {
        let keys = self.entries@.map_values(|e: StoredSegment| e.key());
        assert(keys.no_duplicates());
        keys.unique_seq_to_set();
        assert(keys.to_set() =~= self.segments().dom()) by {
            assert forall|k: SegmentKey| keys.to_set().contains(k) implies self.segments().dom().contains(k) by {
                let i = choose|i: int| 0 <= i < keys.len() && keys[i] == k;
                assert(self.entries@[i].key() == k);
            }
            assert forall|k: SegmentKey| self.segments().dom().contains(k) implies keys.to_set().contains(k) by {
                let i = self.position(k);
                assert(keys[i] == k);
            }
        }
    }

    /// Under distinct keys the entry at position `i` is the one that its key
    /// leads to.
    proof fn lemma_entry(&self, i: int)
        requires
            self.keys_distinct(),
            0 <= i < self.entries@.len(),
        ensures
            self.holds(self.entries@[i].key()),
            self.position(self.entries@[i].key()) == i,
            self.segments().contains_key(self.entries@[i].key()),
            self.segments()[self.entries@[i].key()] == *self.entries@[i].segment,
    {
        let key = self.entries@[i].key();
        let j = self.position(key);
        assert(0 <= j < self.entries@.len() && self.entries@[j].key() == key);
        if j < i {
            assert(self.entries@[j].key() != self.entries@[i].key());
        }
        if i < j {
            assert(self.entries@[i].key() != self.entries@[j].key());
        }
    }

    /// Where the entry under `topic_name` and `id` stands, if there is one.
    fn find(&self, topic_name: &str, id: usize) -> (found: Option<usize>)
        ensures
            match found {
                Some(i) => i < self.entries@.len() && self.entries@[i as int].key() == (
                    topic_name@,
                    id,
                ),
                None => !self.holds((topic_name@, id)),
            },
    {
        let wanted = String::from_str(topic_name);
        let mut i: usize = 0;
        while i < self.entries.len()
            invariant
                i <= self.entries@.len(),
                wanted@ == topic_name@,
                forall|k: int| 0 <= k < i ==> (#[trigger] self.entries@[k]).key() != (topic_name@, id),
            decreases self.entries@.len() - i,
        {
            if self.entries[i].id == id && self.entries[i].topic == wanted {
                return Some(i);
            }
            i = i + 1;
        }
        None
    }
}

impl StorageBackend for InMemoryStorage {
    closed spec fn segments(&self) -> Map<SegmentKey, Segment> {
        Map::new(|key: SegmentKey| self.holds(key), |key: SegmentKey| *self.entries@[self.position(key)].segment)
    }

    open spec fn reliable(&self) -> bool {
        true
    }

    open spec fn failures(&self) -> Set<StorageFailure> {
        Set::empty()
    }

    closed spec fn inv(&self) -> bool {
        &&& self.keys_distinct()
        &&& forall|i: int| 0 <= i < self.entries@.len() ==> (#[trigger] self.entries@[i]).segment.wf()
    }

    fn get_segment(&self, topic_name: &str, id: usize) -> (result: Result<
        Option<Arc<Segment>>,
        StorageFailure,
    >)
    {
        match self.find(topic_name, id) {
            Some(i) => {
                let segment = self.entries[i].segment.clone();
                Ok(Some(segment))
            },
            None => Ok(None),
        }
    }

    fn put_segment(&mut self, topic_name: &str, id: usize, segment: Arc<Segment>) -> (result:
        Result<(), StorageFailure>)
    {
        let entry = StoredSegment { topic: String::from_str(topic_name), id, segment };
        let found = self.find(topic_name, id);
        match found {
            Some(i) => {
                self.entries.set(i, entry);
            },
            None => {
                self.entries.push(entry);
            },
        }
        proof {
            let key = (topic_name@, id);
            let before = *old(self);
            let after = *self;
            let n = before.entries@.len() as int;
            let at = if found is Some { found->Some_0 as int } else { n };
            assert(after.entries@[at].key() == key);
            assert(forall|k: int|
                0 <= k < after.entries@.len() && k != at ==> after.entries@[k]
                    == before.entries@[k]);
            assert(after.keys_distinct()) by {
                assert forall|a: int, b: int| 0 <= a < b < after.entries@.len() implies (
                #[trigger] after.entries@[a]).key() != (#[trigger] after.entries@[b]).key() by {
                    if a != at && b != at {
                        assert(before.entries@[a].key() != before.entries@[b].key());
                    } else if found is Some {
                        assert(before.entries@[a].key() != before.entries@[b].key());
                    } else {
                        assert(before.entries@[a].key() != key);
                    }
                }
            }
            assert forall|other: SegmentKey| #[trigger]
                after.segments().contains_key(other) implies before.segments().insert(
                key,
                *segment,
            ).contains_key(other) by {
                let k = after.position(other);
                if k != at {
                    assert(before.entries@[k].key() == other);
                }
            }
            assert forall|other: SegmentKey| #[trigger]
                before.segments().insert(key, *segment).contains_key(
                    other,
                ) implies after.segments().contains_key(other) && after.segments()[other]
                == before.segments().insert(key, *segment)[other] by {
                if other == key {
                    after.lemma_entry(at);
                } else {
                    let k = before.position(other);
                    assert(before.entries@[k].key() == other);
                    before.lemma_entry(k);
                    assert(after.entries@[k].key() == other);
                    after.lemma_entry(k);
                }
            }
            assert(after.segments() =~= before.segments().insert(key, *segment));
        }
        Ok(())
    }

    fn remove_segment(&mut self, topic_name: &str, id: usize) -> (result: Result<
        (),
        StorageFailure,
    >)
    {
        let found = self.find(topic_name, id);
        match found {
            Some(i) => {
                self.entries.remove(i);
            },
            None => {},
        }
        proof {
            let key = (topic_name@, id);
            let before = *old(self);
            let after = *self;
            let n = before.entries@.len() as int;
            let at = if found is Some { found->Some_0 as int } else { n };
            // where the entry at `k` of `after` stood before
            let origin = |k: int| if k < at { k } else { k + 1 };
            assert(forall|k: int|
                0 <= k < after.entries@.len() ==> #[trigger] after.entries@[k]
                    == before.entries@[origin(k)]);
            assert(after.keys_distinct()) by {
                assert forall|a: int, b: int| 0 <= a < b < after.entries@.len() implies (
                #[trigger] after.entries@[a]).key() != (#[trigger] after.entries@[b]).key() by {
                    assert(before.entries@[origin(a)].key() != before.entries@[origin(b)].key());
                }
            }
            assert forall|other: SegmentKey| #[trigger]
                after.segments().contains_key(other) implies before.segments().remove(
                key,
            ).contains_key(other) by {
                let k = after.position(other);
                assert(before.entries@[origin(k)].key() == other);
                if found is Some {
                    if origin(k) < at {
                        assert(before.entries@[origin(k)].key() != before.entries@[at].key());
                    } else {
                        assert(before.entries@[at].key() != before.entries@[origin(k)].key());
                    }
                }
            }
            assert forall|other: SegmentKey| #[trigger]
                before.segments().remove(key).contains_key(
                    other,
                ) implies after.segments().contains_key(other) && after.segments()[other]
                == before.segments().remove(key)[other] by {
                let k = before.position(other);
                assert(before.entries@[k].key() == other);
                before.lemma_entry(k);
                let to = if k < at { k } else { k - 1 };
                assert(origin(to) == k);
                assert(after.entries@[to].key() == other);
                after.lemma_entry(to);
            }
            assert(after.segments() =~= before.segments().remove(key));
        }
        Ok(())
    }
}

/// An in-memory backend that fails on request, to rehearse how a topic
/// behaves over a backend that is not reliable. Of the calls that would
/// change the backend, puts and removals, the next `healthy_writes` go
/// through, the `failing_writes` after them fail and leave the backend as it
/// was, and the rest go through again. Lookups fail while `failing_reads` is
/// set.
#[derive(Debug)]
pub struct UnreliableStorage {
    inner: InMemoryStorage,
    healthy_writes: usize,
    failing_writes: usize,
    failing_reads: bool,
}

impl UnreliableStorage {
    /// The number of coming puts and removals that go through before the
    /// failures begin.
    pub closed spec fn healthy_writes(&self) -> nat {
        self.healthy_writes as nat
    }

    /// The number of puts and removals that fail once the healthy ones are
    /// used up.
    pub closed spec fn failing_writes(&self) -> nat {
        self.failing_writes as nat
    }

    /// Whether lookups fail.
    pub closed spec fn reads_fail(&self) -> bool {
        self.failing_reads
    }

    /// Whether the next put or removal fails.
    pub open spec fn next_write_fails(&self) -> bool {
        self.healthy_writes() == 0 && self.failing_writes() > 0
    }

    /// The schedule of `self` is that of `before` after one put or removal.
    pub open spec fn one_write_after(&self, before: &Self) -> bool {
        &&& self.reads_fail() == before.reads_fail()
        &&& self.healthy_writes() == (if before.healthy_writes() > 0 {
            before.healthy_writes() - 1
        } else {
            0
        })
        &&& self.failing_writes() == (if before.next_write_fails() {
            before.failing_writes() - 1
        } else {
            before.failing_writes() as int
        })
    }

    /// An empty backend with the given schedule of failures.
    pub fn new(healthy_writes: usize, failing_writes: usize, failing_reads: bool) -> (storage: Self)
        ensures
            storage.inv(),
            !storage.reliable(),
            (storage.segments() == Map::<SegmentKey, Segment>::empty()),
            storage.healthy_writes() == healthy_writes,
            storage.failing_writes() == failing_writes,
            storage.reads_fail() == failing_reads,
    {
        UnreliableStorage {
            inner: InMemoryStorage::new(),
            healthy_writes,
            failing_writes,
            failing_reads,
        }
    }

    /// The number of segments held.
    pub fn len(&self) -> (n: usize)
        requires
            self.inv(),
        ensures
            n == self.segments().dom().len(),
    {
        self.inner.len()
    }

    /// Whether `failure` is the one that this backend reports: of the kind
    /// `unavailable`, with a message that says so.
    pub open spec fn is_unavailable(failure: StorageFailure) -> bool {
        &&& failure.kind@ == "unavailable"@
        &&& failure.message@ == "the backend is unavailable"@
    }

    /// The failure that the backend reports.
    fn failure() -> (failure: StorageFailure)
        ensures
            Self::is_unavailable(failure),
    {
        StorageFailure {
            kind: String::from_str("unavailable"),
            message: String::from_str("the backend is unavailable"),
        }
    }

    /// Takes the next put or removal off the schedule, and tells whether it
    /// fails.
    fn next_write(&mut self) -> (fails: bool)
        ensures
            fails == old(self).next_write_fails(),
            final(self).one_write_after(old(self)),
            final(self).inner == old(self).inner,
    {
        if self.healthy_writes > 0 {
            self.healthy_writes = self.healthy_writes - 1;
            false
        } else if self.failing_writes > 0 {
            self.failing_writes = self.failing_writes - 1;
            true
        } else {
            false
        }
    }
}

impl StorageBackend for UnreliableStorage {
    closed spec fn segments(&self) -> Map<SegmentKey, Segment> {
        self.inner.segments()
    }

    open spec fn reliable(&self) -> bool {
        false
    }

    open spec fn failures(&self) -> Set<StorageFailure> {
        Set::new(|failure: StorageFailure| Self::is_unavailable(failure))
    }

    closed spec fn inv(&self) -> bool {
        self.inner.inv()
    }

    fn get_segment(&self, topic_name: &str, id: usize) -> (result: Result<
        Option<Arc<Segment>>,
        StorageFailure,
    >)
        ensures
            result is Err <==> self.reads_fail(),
            result matches Err(failure) ==> Self::is_unavailable(failure),
    {
        if self.failing_reads {
            return Err(Self::failure());
        }
        self.inner.get_segment(topic_name, id)
    }

    fn put_segment(&mut self, topic_name: &str, id: usize, segment: Arc<Segment>) -> (result:
        Result<(), StorageFailure>)
        ensures
            result is Err <==> old(self).next_write_fails(),
            result matches Err(failure) ==> Self::is_unavailable(failure),
            final(self).one_write_after(old(self)),
    {
        if self.next_write() {
            return Err(Self::failure());
        }
        self.inner.put_segment(topic_name, id, segment)
    }

    fn remove_segment(&mut self, topic_name: &str, id: usize) -> (result: Result<
        (),
        StorageFailure,
    >)
        ensures
            result is Err <==> old(self).next_write_fails(),
            result matches Err(failure) ==> Self::is_unavailable(failure),
            final(self).one_write_after(old(self)),
    {
        if self.next_write() {
            return Err(Self::failure());
        }
        self.inner.remove_segment(topic_name, id)
    }
}

} // verus!
