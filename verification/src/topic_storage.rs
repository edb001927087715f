//! The store of one topic: the ordered index of its segments, the single
//! writable segment, and the paths that write to the log, read from it and
//! reclaim what is no longer needed.

use crate::errors::ReliableDispatchError;
use crate::message::{MessageView, StreamMessage};
use crate::options::{ReliableOptions, BYTES_PER_MB};
use crate::segment::{total_size, Segment, SegmentView};
use crate::segment_index::{
    given_up, holds_id, ids_increasing, increasing, index_contains, index_position,
    lemma_index_position, lemma_without, open_only_last, successor, with_close_time, without,
    IndexEntry, ReclaimRule,
};
use crate::segment_key::{lemma_segment_key_injective, segment_key};
use crate::storage_backend::{SegmentKey, StorageBackend};
use crate::subscriptions::{is_least_cursor, Subscriptions};
use crate::topic_cache::TopicCache;
use std::sync::Arc;
use vstd::prelude::*;
use vstd::string::*;

verus! {

/// An empty, open segment.
pub open spec fn fresh_segment(id: usize) -> SegmentView {
    SegmentView { id, close_time: 0, messages: Seq::empty() }
}

/// The segment that starts with `message`, stamped as its first message.
pub open spec fn first_segment(id: usize, message: MessageView) -> SegmentView {
    fresh_segment(id).appended(message.stamped(id as u64, 0))
}

/// The log of a topic as the store's contracts see it: the index, the id of
/// the writable segment, and the writable segment once there is one.
pub struct LogState {
    pub index: Seq<IndexEntry>,
    pub current_id: usize,
    pub writable: Option<SegmentView>,
}

impl LogState {
    /// The log after the store has made its first segment.
    pub open spec fn created(self) -> LogState {
        LogState {
            index: self.index.push((self.current_id, 0)),
            current_id: self.current_id,
            writable: Some(fresh_segment(self.current_id)),
        }
    }

    /// The log after the store has taken over `segment`, which the cache
    /// already held under the id of the writable segment. The index is left
    /// as it was.
    pub open spec fn adopted(self, segment: SegmentView) -> LogState {
        LogState { index: self.index, current_id: self.current_id, writable: Some(segment) }
    }

    /// Whether the writable segment has reached `limit` bytes.
    pub open spec fn is_full(self, limit: usize) -> bool {
        self.writable matches Some(segment) && segment.size() >= limit
    }

    /// The log after `message` has been appended to the writable segment,
    /// stamped with the segment's id and the next offset.
    pub open spec fn appended(self, message: MessageView) -> LogState {
        let segment = self.writable->Some_0;
        LogState {
            index: self.index,
            current_id: self.current_id,
            writable: Some(
                segment.appended(
                    message.stamped(self.current_id as u64, segment.messages.len() as u64),
                ),
            ),
        }
    }

    /// The log after a rollover at `now`: the writable segment is closed in
    /// the index, its successor is indexed and made writable, and `message`
    /// is the successor's first message.
    pub open spec fn rolled(self, now: u64, message: MessageView) -> LogState {
        let next = (self.current_id + 1) as usize;
        LogState {
            index: with_close_time(self.index, self.current_id, now).push((next, 0)),
            current_id: next,
            writable: Some(first_segment(next, message)),
        }
    }

    /// Whether a store at `now` sets out to roll the log over: the writable
    /// segment is full, the time is not zero and there is a segment id left.
    pub open spec fn rolls(self, limit: usize, now: u64) -> bool {
        self.is_full(limit) && now > 0 && self.current_id < usize::MAX
    }

    /// Whether a store of `message` at `now` is refused outright: an append
    /// to a segment that is closed or whose size counter cannot take the
    /// payload, or a rollover at time zero or past the last segment id.
    pub open spec fn refuses(self, limit: usize, message: MessageView, now: u64) -> bool {
        let segment = self.writable->Some_0;
        if self.is_full(limit) {
            now == 0 || self.current_id == usize::MAX
        } else {
            !segment.is_open() || segment.size() + message.size() > usize::MAX
        }
    }

    /// The log after a store of `message` at `now` has succeeded.
    pub open spec fn accepted(self, limit: usize, message: MessageView, now: u64) -> LogState {
        if self.is_full(limit) {
            self.rolled(now, message)
        } else {
            self.appended(message)
        }
    }
}

/// `backend` without the segments of `topic` whose ids are in `removed`.
pub open spec fn backend_without(
    backend: Map<SegmentKey, Segment>,
    topic: Seq<char>,
    removed: Set<usize>,
) -> Map<SegmentKey, Segment> {
    backend.remove_keys(Set::new(|key: SegmentKey| key.0 == topic && removed.contains(key.1)))
}

/// The cache keys of the segments of `topic` whose ids are in `ids`.
pub open spec fn keys_of(topic: Seq<char>, ids: Set<usize>) -> Set<Seq<char>> {
    Set::new(
        |key: Seq<char>| exists|id: usize| ids.contains(id) && #[trigger] segment_key(topic, id) == key,
    )
}

/// `memory` without what is written under the keys of the segments of
/// `topic` whose ids are in `ids`.
pub open spec fn memory_without(
    memory: Map<Seq<char>, Segment>,
    topic: Seq<char>,
    ids: Set<usize>,
) -> Map<Seq<char>, Segment> {
    memory.remove_keys(keys_of(topic, ids))
}

/// The ids of the segments of `index` that `rule` gives up.
pub open spec fn ids_given_up(index: Seq<IndexEntry>, rule: ReclaimRule, retention_period: u64) -> Set<
    usize,
> {
    Set::new(|id: usize| given_up(index, id, rule, retention_period))
}

/// The keys of one more segment are the keys so far and that segment's key.
proof fn lemma_keys_of_insert(topic: Seq<char>, ids: Set<usize>, id: usize)
    ensures
        keys_of(topic, ids.insert(id)) == keys_of(topic, ids).insert(segment_key(topic, id)),
{
    let more = keys_of(topic, ids.insert(id));
    let less = keys_of(topic, ids).insert(segment_key(topic, id));
    assert forall|key: Seq<char>| more.contains(key) implies less.contains(key) by {
        let found = choose|found: usize|
            ids.insert(id).contains(found) && #[trigger] segment_key(topic, found) == key;
        if found != id {
            assert(ids.contains(found) && segment_key(topic, found) == key);
        }
    }
    assert forall|key: Seq<char>| less.contains(key) implies more.contains(key) by {
        if key == segment_key(topic, id) {
            assert(ids.insert(id).contains(id) && segment_key(topic, id) == key);
        } else {
            let found = choose|found: usize|
                ids.contains(found) && #[trigger] segment_key(topic, found) == key;
            assert(ids.insert(id).contains(found) && segment_key(topic, found) == key);
        }
    }
    assert(more =~= less);
}

/// The first `i + 1` ids of a list are its first `i` ids and the one after
/// them.
proof fn lemma_take_one_more(ids: Seq<usize>, i: int)
    requires
        0 <= i < ids.len(),
    ensures
        ids.take(i + 1).to_set() == ids.take(i).to_set().insert(ids[i]),
{
    let more = ids.take(i + 1);
    let less = ids.take(i);
    assert forall|id: usize| more.contains(id) implies less.contains(id) || id == ids[i] by {
        let k = choose|k: int| 0 <= k < more.len() && more[k] == id;
        if k < i {
            assert(less[k] == id);
        }
    }
    assert forall|id: usize| less.contains(id) || id == ids[i] implies more.contains(id) by {
        if less.contains(id) {
            let k = choose|k: int| 0 <= k < less.len() && less[k] == id;
            assert(more[k] == id);
        } else {
            assert(more[i] == id);
        }
    }
    assert(more.to_set() =~= less.to_set().insert(ids[i]));
}

/// The per-topic store.
#[derive(Debug)]
pub struct TopicStore<B: StorageBackend> {
    topic_name: String,
    storage: TopicCache<B>,
    segments_index: Vec<IndexEntry>,
    segment_size: usize,
    retention_period: u64,
    current_segment_id: usize,
    cached_segment: Option<Segment>,
}

impl<B: StorageBackend> TopicStore<B> {
    /// The topic's name.
    pub closed spec fn topic(&self) -> Seq<char> {
        self.topic_name@
    }

    /// The segment cache behind the store.
    pub closed spec fn cache(&self) -> TopicCache<B> {
        self.storage
    }

    /// The segment index.
    pub closed spec fn index(&self) -> Seq<IndexEntry> {
        self.segments_index@
    }

    /// The size, in bytes, at which a segment is closed.
    pub closed spec fn segment_size(&self) -> usize {
        self.segment_size
    }

    /// The retention period in seconds.
    pub closed spec fn retention_period(&self) -> u64 {
        self.retention_period
    }

    /// The id of the writable segment.
    pub closed spec fn current_id(&self) -> usize {
        self.current_segment_id
    }

    /// The writable segment, once there is one.
    pub closed spec fn writable(&self) -> Option<SegmentView> {
        match self.cached_segment {
            Some(segment) => Some(segment@),
            None => None,
        }
    }

    /// The counters of the writable segment agree with its messages.
    pub closed spec fn writable_valid(&self) -> bool {
        self.cached_segment matches Some(segment) ==> segment.wf()
    }

    /// The cache key of segment `id` of this topic.
    pub open spec fn key(&self, id: usize) -> Seq<char> {
        segment_key(self.topic(), id)
    }

    /// The closed segment `id` as the backend holds it.
    pub open spec fn stored(&self, id: usize) -> SegmentView {
        self.cache().backend()[(self.topic(), id)]@
    }

    /// Segment `id` of the log: the writable segment, or a closed one as the
    /// backend holds it.
    pub open spec fn segment(&self, id: usize) -> SegmentView {
        if self.index().len() > 0 && id == self.current_id() {
            self.writable()->Some_0
        } else {
            self.stored(id)
        }
    }

    /// The closed segment of `entry` is in the backend as the index has it,
    /// duly stamped and within the size bound, and the memory tier holds no
    /// other version of it.
    pub open spec fn entry_stored(&self, entry: IndexEntry) -> bool {
        let key = (self.topic(), entry.0);
        &&& self.cache().backend().contains_key(key)
        &&& self.stored(entry.0).id == entry.0
        &&& self.stored(entry.0).close_time == entry.1
        &&& self.stored(entry.0).is_stamped()
        &&& self.stored(entry.0).size_bounded(self.segment_size() as nat)
        &&& self.cache().memory().contains_key(self.key(entry.0)) ==> self.cache().memory()[self.key(
            entry.0,
        )] == self.cache().backend()[key]
    }

    /// The store's validity. The index is ordered by id; once it has an
    /// entry, its last entry is the writable segment and the only open one;
    /// the writable segment is open, duly stamped and within the size bound;
    /// every closed segment of the index is in the backend.
    pub open spec fn wf(&self) -> bool {
        &&& self.cache().wf()
        &&& self.writable_valid()
        &&& ids_increasing(self.index())
        &&& open_only_last(self.index())
        &&& self.writable() is None ==> self.index().len() == 0 && self.current_id() == 0
        &&& self.index().len() > 0 ==> {
            &&& self.index().last().0 == self.current_id()
            &&& self.writable() matches Some(segment)
            &&& segment.id == self.current_id()
            &&& segment.is_open()
            &&& segment.is_stamped()
            &&& segment.size_bounded(self.segment_size() as nat)
        }
        &&& forall|i: int|
            0 <= i < self.index().len() - 1 ==> self.entry_stored(#[trigger] self.index()[i])
    }

    /// A store for `topic_name` over `storage`, with no segment yet.
    pub fn new(topic_name: &str, storage: TopicCache<B>, reliable_options: ReliableOptions) -> (store:
        Self)
        requires
            storage.wf(),
            reliable_options.segment_size_bytes() <= usize::MAX,
        ensures
            store.wf(),
            store.topic() == topic_name@,
            store.cache() == storage,
            store.index() == Seq::<IndexEntry>::empty(),
            store.segment_size() == reliable_options.segment_size_bytes(),
            store.retention_period() == reliable_options.retention_period,
            store.current_id() == 0,
            store.writable() is None,
    {
        let segment_size_bytes: usize = reliable_options.segment_size * BYTES_PER_MB;
        TopicStore {
            topic_name: String::from_str(topic_name),
            storage,
            segments_index: Vec::new(),
            segment_size: segment_size_bytes,
            retention_period: reliable_options.retention_period,
            current_segment_id: 0,
            cached_segment: None,
        }
    }

    /// The topic's name.
    pub fn topic_name(&self) -> (name: &str)
        ensures
            name@ == self.topic(),
    {
        self.topic_name.as_str()
    }

    /// The segment index: each segment's id with its close time, in order.
    pub fn segments_index(&self) -> (index: &Vec<IndexEntry>)
        ensures
            index@ == self.index(),
    {
        &self.segments_index
    }

    /// The id of the writable segment.
    pub fn current_segment_id(&self) -> (id: usize)
        ensures
            id == self.current_id(),
    {
        self.current_segment_id
    }

    /// The size, in bytes, at which a segment is closed.
    pub fn segment_size_bytes(&self) -> (size: usize)
        ensures
            size == self.segment_size(),
    {
        self.segment_size
    }

    /// The retention period in seconds.
    pub fn retention_period_secs(&self) -> (period: u64)
        ensures
            period == self.retention_period(),
    {
        self.retention_period
    }

    /// The writable segment, once there is one.
    pub fn writable_segment(&self) -> (segment: Option<&Segment>)
        ensures
            match segment {
                Some(segment) => self.writable() == Some(segment@) && (self.wf() ==> segment.wf()),
                None => self.writable() is None,
            },
    {
        self.cached_segment.as_ref()
    }

    /// The segment cache behind the store.
    pub fn topic_cache(&self) -> (cache: &TopicCache<B>)
        ensures
            *cache == self.cache(),
    {
        &self.storage
    }

    /// The log as the contracts see it.
    pub open spec fn log(&self) -> LogState {
        LogState { index: self.index(), current_id: self.current_id(), writable: self.writable() }
    }

    /// What does not change once the store is made: the topic, the segment
    /// size, the retention period, whether the backend is reliable, and the
    /// failures that it may report.
    pub open spec fn same_setup(&self, other: &Self) -> bool {
        &&& self.topic() == other.topic()
        &&& self.segment_size() == other.segment_size()
        &&& self.retention_period() == other.retention_period()
        &&& self.cache().reliable() == other.cache().reliable()
        &&& self.cache().failures() == other.cache().failures()
    }

    /// Whether the cache holds `segment` under the id of the writable
    /// segment, in memory or in the backend, so that a store without a
    /// writable segment may take it over.
    pub open spec fn adoptable(&self, segment: SegmentView) -> bool {
        ||| self.cache().memory().contains_key(self.key(self.current_id())) && self.cache().memory()[self.key(
            self.current_id(),
        )]@ == segment
        ||| self.cache().backend().contains_key((self.topic(), self.current_id())) && self.stored(
            self.current_id(),
        ) == segment
    }

    /// The memory tier of `self` is that of `before` with a segment of the
    /// value `segment` written under the key of segment `id`.
    pub open spec fn memory_written(&self, before: &Self, id: usize, segment: SegmentView) -> bool {
        &&& self.cache().memory() == before.cache().memory().insert(
            before.key(id),
            self.cache().memory()[before.key(id)],
        )
        &&& self.cache().memory()[before.key(id)]@ == segment
    }

    /// The backend of `self` is that of `before` with a segment of the value
    /// `segment` stored for segment `id`.
    pub open spec fn backend_written(&self, before: &Self, id: usize, segment: SegmentView) -> bool {
        &&& self.cache().backend() == before.cache().backend().insert(
            (before.topic(), id),
            self.cache().backend()[(before.topic(), id)],
        )
        &&& self.cache().backend()[(before.topic(), id)]@ == segment
    }

    /// Makes sure that there is a writable segment. Where there is none yet,
    /// the cache is asked for the segment with the current id. A segment
    /// found there becomes the writable segment. Where none is found, a new
    /// empty segment is made, written to the cache's memory tier and entered
    /// in the index.
    pub fn get_or_create_segment(&mut self) -> (result: Result<(), ReliableDispatchError>)
        requires
            old(self).wf(),
        ensures
            final(self).wf(),
            final(self).same_setup(old(self)),
            final(self).cache().backend() == old(self).cache().backend(),
            old(self).writable() is Some ==> result is Ok && final(self).log() == old(self).log()
                && final(self).cache().memory() == old(self).cache().memory(),
            old(self).writable() is None ==> match result {
                Ok(_) => {
                    &&& final(self).writable() matches Some(segment)
                    &&& final(self).memory_written(old(self), old(self).current_id(), segment)
                    &&& {
                        ||| final(self).log() == old(self).log().created() && !old(self).cache().backend().contains_key((old(self).topic(), old(self).current_id()))
                        ||| old(self).adoptable(segment) && final(self).log() == old(self).log().adopted(
                            segment,
                        )
                    }
                },
                Err(error) => old(self).cache().failed_with(error) && final(self).log() == old(self).log()
                    && final(self).cache().memory() == old(self).cache().memory(),
            },
            old(self).cache().reliable() ==> result is Ok,
    {
        if self.cached_segment.is_some() {
            return Ok(());
        }
        let id: usize = self.current_segment_id;
        match self.storage.get_segment(self.topic_name.as_str(), id) {
            Err(error) => Err(error),
            Ok(Some(found)) => {
                let segment: Segment = (*found).clone();
                self.cached_segment = Some(segment);
                proof {
                    let key = self.key(id);
                    assert(self.cache().memory().remove(key) =~= old(self).cache().memory().remove(
                        key,
                    ));
                    assert(self.cache().memory() =~= old(self).cache().memory().insert(
                        key,
                        self.cache().memory()[key],
                    ));
                }
                Ok(())
            },
            Ok(None) => {
                let segment = Segment::new(id);
                let written = self.storage.put_segment(
                    self.topic_name.as_str(),
                    id,
                    Arc::new(segment.clone()),
                );
                if let Err(error) = written {
                    return Err(error);
                }
                self.segments_index.push((id, 0));
                self.cached_segment = Some(segment);
                proof {
                    assert(self.cache().memory().remove(self.key(id)) =~= old(self).cache().memory().remove(self.key(id)));
                    assert(self.index() =~= old(self).log().created().index);
                    assert(total_size(fresh_segment(id).messages) == 0);
                }
                Ok(())
            },
        }
    }

    /// Appends `message` to the writable segment, stamped with the id of the
    /// segment and the next offset in it.
    fn append_to_writable(&mut self, message: StreamMessage) -> (result: Result<
        (),
        ReliableDispatchError,
    >)
        requires
            old(self).wf(),
            old(self).writable() is Some,
            !old(self).log().is_full(old(self).segment_size()),
        ensures
            final(self).wf(),
            final(self).same_setup(old(self)),
            final(self).cache() == old(self).cache(),
            result is Err <==> old(self).log().refuses(old(self).segment_size(), message@, 0),
            result matches Err(error) ==> error is InvariantViolation && final(self).log() == old(self).log(),
            result is Ok ==> final(self).log() == old(self).log().appended(message@),
    {
        let id: usize = self.current_segment_id;
        let limit: usize = self.segment_size;
        let slot = self.cached_segment.take();
        match slot {
            Some(segment) => {
                let mut segment = segment;
                let mut message = message;
                message.stamp(id as u64, segment.next_offset());
                let result = segment.add_message(message);
                proof {
                    if result is Ok {
                        let before = old(self).writable()->Some_0;
                        let after = segment@;
                        assert(after.messages.drop_last() =~= before.messages);
                        if before.is_stamped() && before.id == id {
                            assert forall|k: int| 0 <= k < after.messages.len() implies {
                                &&& (#[trigger] after.messages[k]).msg_id.segment_id == after.id
                                &&& after.messages[k].msg_id.segment_offset == k
                            } by {
                                if k < before.messages.len() {
                                    assert(after.messages[k] == before.messages[k]);
                                }
                            }
                        }
                    }
                }
                self.cached_segment = Some(segment);
                result
            },
            None => Err(
                ReliableDispatchError::InvariantViolation(String::from_str("no writable segment")),
            ),
        }
    }

    /// Sets the close time of segment `id` in the index, where the index has
    /// an entry for it.
    fn mark_closed(&mut self, id: usize, close_time: u64)
        ensures
            final(self).index() == with_close_time(old(self).index(), id, close_time),
            final(self).topic() == old(self).topic(),
            final(self).cache() == old(self).cache(),
            final(self).segment_size() == old(self).segment_size(),
            final(self).retention_period() == old(self).retention_period(),
            final(self).current_id() == old(self).current_id(),
            final(self).writable() == old(self).writable(),
            final(self).writable_valid() == old(self).writable_valid(),
    {
        let mut i: usize = 0;
        while i < self.segments_index.len()
            invariant
                i <= self.segments_index@.len(),
                self.segments_index@.len() == old(self).segments_index@.len(),
                forall|k: int|
                    0 <= k < i ==> #[trigger] self.segments_index@[k] == with_close_time(
                        old(self).segments_index@,
                        id,
                        close_time,
                    )[k],
                forall|k: int|
                    i <= k < self.segments_index@.len() ==> #[trigger] self.segments_index@[k]
                        == old(self).segments_index@[k],
                self.topic_name == old(self).topic_name,
                self.storage == old(self).storage,
                self.segment_size == old(self).segment_size,
                self.retention_period == old(self).retention_period,
                self.current_segment_id == old(self).current_segment_id,
                self.cached_segment == old(self).cached_segment,
            decreases self.segments_index@.len() - i,
        {
            if self.segments_index[i].0 == id {
                self.segments_index.set(i, (id, close_time));
            }
            i = i + 1;
        }
        assert(self.index() =~= with_close_time(old(self).index(), id, close_time));
    }

    /// Rolls the log over at `now`: the writable segment is closed and
    /// written through to the backend, its successor is made, indexed and
    /// installed as the writable segment, and `message` becomes the
    /// successor's first message. Where the backend refuses the closed
    /// segment, the log stays as it was and the segment stays writable.
    pub fn handle_segment_full(&mut self, now: u64, message: StreamMessage) -> (result: Result<
        (),
        ReliableDispatchError,
    >)
        requires
            old(self).wf(),
            old(self).writable() is Some,
        ensures
            final(self).wf(),
            final(self).same_setup(old(self)),
            if now > 0 && old(self).current_id() < usize::MAX {
                final(self).memory_written(
                    old(self),
                    old(self).current_id(),
                    old(self).writable()->Some_0.closed_at(now),
                )
            } else {
                final(self).cache().memory() == old(self).cache().memory()
            },
            match result {
                Ok(_) => {
                    &&& now > 0
                    &&& old(self).current_id() < usize::MAX
                    &&& final(self).log() == old(self).log().rolled(now, message@)
                    &&& final(self).backend_written(
                        old(self),
                        old(self).current_id(),
                        old(self).writable()->Some_0.closed_at(now),
                    )
                },
                Err(error) => {
                    &&& final(self).log() == old(self).log()
                    &&& final(self).cache().backend() == old(self).cache().backend()
                    &&& if now == 0 || old(self).current_id() == usize::MAX {
                        error is InvariantViolation
                    } else {
                        old(self).cache().failed_with(error)
                    }
                },
            },
            now > 0 && old(self).current_id() < usize::MAX && old(self).cache().reliable()
                ==> result is Ok,
            now == 0 || old(self).current_id() == usize::MAX ==> result is Err,
    {
        if now == 0 {
            return Err(
                ReliableDispatchError::InvariantViolation(
                    String::from_str("a segment cannot be closed at time zero"),
                ),
            );
        }
        if self.current_segment_id == usize::MAX {
            return Err(
                ReliableDispatchError::InvariantViolation(
                    String::from_str("the segment ids are used up"),
                ),
            );
        }
        let id: usize = self.current_segment_id;
        let closed: Segment = match &self.cached_segment {
            Some(segment) => {
                let mut copy = segment.clone();
                copy.close(now);
                copy
            },
            None => {
                return Err(
                    ReliableDispatchError::InvariantViolation(
                        String::from_str("no writable segment"),
                    ),
                );
            },
        };
        let ghost closed_view = closed@;
        let handle = Arc::new(closed);
        let written = self.storage.put_segment(self.topic_name.as_str(), id, handle);
        proof {
            assert forall|i: int| 0 <= i < self.index().len() - 1 implies self.entry_stored(
                #[trigger] self.index()[i],
            ) by {
                let entry = self.index()[i];
                assert(old(self).entry_stored(entry));
                assert(entry.0 < self.index().last().0);
                if self.key(entry.0) == self.key(id) {
                    lemma_segment_key_injective(self.topic(), entry.0, self.topic(), id);
                }
            }
            assert(self.cache().memory()[self.key(id)]@ == closed_view);
            assert(closed_view == old(self).writable()->Some_0.closed_at(now));
            if written is Ok {
                assert(self.cache().backend() =~= old(self).cache().backend().insert(
                    (self.topic(), id),
                    self.cache().backend()[(self.topic(), id)],
                ));
            }
        }
        if let Err(error) = written {
            return Err(error);
        }
        let ghost stored_cache = self.storage;
        let ghost given = message@;
        self.mark_closed(id, now);
        let next: usize = id + 1;
        let mut segment = Segment::new(next);
        self.segments_index.push((next, 0));
        let mut message = message;
        message.stamp(next as u64, segment.next_offset());
        let ghost first = message@;
        assert(total_size(segment@.messages) == 0);
        assert(first.size() <= usize::MAX) by {
            assert(message.payload.len() == message.payload@.len());
        }
        let appended = segment.add_message(message);
        self.cached_segment = Some(segment);
        self.current_segment_id = next;
        proof {
            let index = self.index();
            let before = old(self).index();
            assert(self.writable()->Some_0.messages =~= seq![first]);
            assert(self.writable()->Some_0.messages.drop_last() =~= Seq::<MessageView>::empty());
            assert(total_size(Seq::<MessageView>::empty()) == 0);
            assert(index =~= old(self).log().rolled(now, given).index);
            assert(self.writable() == old(self).log().rolled(now, given).writable);
            assert forall|i: int, j: int| 0 <= i < j < index.len() implies (#[trigger] index[i]).0 < (
            #[trigger] index[j]).0 by {
                if j < before.len() {
                    assert(before[i].0 < before[j].0);
                } else {
                    if i < before.len() - 1 {
                        assert(before[i].0 < before[before.len() - 1].0);
                    }
                }
            }
            assert forall|i: int| 0 <= i < index.len() - 1 implies self.entry_stored(
                #[trigger] index[i],
            ) by {
                if i < before.len() - 1 {
                    assert(before[i].0 < before[before.len() - 1].0);
                    assert(index[i] == before[i]);
                    assert(self.cache() == stored_cache);
                } else {
                    assert(index[i] == (id, now));
                    assert(self.stored(id) == closed_view);
                    assert(closed_view == old(self).writable()->Some_0.closed_at(now));
                }
            }
        }
        Ok(())
    }

    /// Stores `message` at time `now`, in seconds since the epoch. The
    /// message goes to the writable segment, stamped with that segment's id
    /// and its own offset in it. Where the writable segment is full, the log
    /// is rolled over first and the message opens the next segment.
    pub fn store_message(&mut self, message: StreamMessage, now: u64) -> (result: Result<
        (),
        ReliableDispatchError,
    >)
        requires
            old(self).wf(),
        ensures
            final(self).wf(),
            final(self).message_stored(old(self), message@, now, result),
    {
        let ghost limit = self.segment_size();
        if let Err(error) = self.get_or_create_segment() {
            return Err(error);
        }
        let ghost base = *self;
        proof {
            if old(self).writable() is None && base.log() != old(self).log().created() {
                assert(old(self).adoptable(base.writable()->Some_0));
            }
        }
        let full = match &self.cached_segment {
            Some(segment) => segment.is_full(self.segment_size),
            None => false,
        };
        let result = if full {
            self.handle_segment_full(now, message)
        } else {
            self.append_to_writable(message)
        };
        proof {
            let id = old(self).current_id();
            let key = old(self).key(id);
            let place = (old(self).topic(), id);
            if base.log().rolls(limit, now) {
                assert(self.cache().memory() =~= old(self).cache().memory().insert(
                    key,
                    self.cache().memory()[key],
                ));
            }
            if result is Ok && base.log().is_full(limit) {
                assert(self.cache().backend() =~= old(self).cache().backend().insert(
                    place,
                    self.cache().backend()[place],
                ));
            }
        }
        result
    }

    /// How a store of `message` at `now` ends in `self` with `result`, when
    /// the store was `before`. Where `before` has a writable segment, the
    /// store settles on its log, and unless it sets out to roll over it
    /// leaves the memory tier alone. Where `before` has no writable segment
    /// yet, the lookup in the cache may fail, and nothing changes; or the
    /// store settles on the log with a first segment, which is a new one where
    /// the backend holds no segment under the current id, or else one that
    /// the cache held and the store takes over. Unless the store then sets
    /// out to roll over, the memory tier holds that first segment under its
    /// key.
    pub open spec fn message_stored(
        &self,
        before: &Self,
        message: MessageView,
        now: u64,
        result: Result<(), ReliableDispatchError>,
    ) -> bool {
        let limit = before.segment_size();
        let current = before.current_id();
        &&& self.same_setup(before)
        &&& before.writable() is Some ==> {
            &&& self.settled(before, before.log(), message, now, result)
            &&& !before.log().rolls(limit, now) ==> self.cache().memory() == before.cache().memory()
        }
        &&& before.writable() is None ==> {
            ||| {
                &&& result matches Err(error)
                &&& before.cache().failed_with(error)
                &&& !before.cache().reliable()
                &&& self.log() == before.log()
                &&& self.cache().memory() == before.cache().memory()
                &&& self.cache().backend() == before.cache().backend()
            }
            ||| {
                &&& !before.cache().backend().contains_key((before.topic(), current))
                &&& self.settled(before, before.log().created(), message, now, result)
                &&& !before.log().created().rolls(limit, now) ==> self.memory_written(
                    before,
                    current,
                    fresh_segment(current),
                )
            }
            ||| exists|segment: SegmentView| #[trigger]
                before.adoptable(segment) && self.settled(
                    before,
                    before.log().adopted(segment),
                    message,
                    now,
                    result,
                ) && (!before.log().adopted(segment).rolls(limit, now) ==> self.memory_written(
                    before,
                    current,
                    segment,
                ))
        }
    }

    /// How a store of `message` at `now` on the log `base`, which has a
    /// writable segment, ends in `self` with `result`, when the cache was
    /// that of `before`. A store that `base` refuses fails as an invariant
    /// violation. A rollover also fails when the backend does, as a storage
    /// error, which a reliable backend never gives. A failed store leaves the
    /// log as `base`; a successful one leaves what `base` accepts.
    ///
    /// A store that sets out to roll over writes the writable segment of
    /// `base`, closed at `now` with all its messages, to the memory tier,
    /// whether or not the backend then takes it. A rollover that succeeds
    /// leaves that closed segment in the backend. No other store changes the
    /// backend.
    pub open spec fn settled(
        &self,
        before: &Self,
        base: LogState,
        message: MessageView,
        now: u64,
        result: Result<(), ReliableDispatchError>,
    ) -> bool {
        let limit = before.segment_size();
        let closed = base.writable->Some_0.closed_at(now);
        &&& match result {
            Ok(_) => !base.refuses(limit, message, now) && self.log() == base.accepted(
                limit,
                message,
                now,
            ),
            Err(error) => self.log() == base && if base.refuses(limit, message, now) {
                error is InvariantViolation
            } else {
                before.cache().failed_with(error) && base.is_full(limit)
                    && !before.cache().reliable()
            },
        }
        &&& base.rolls(limit, now) ==> self.memory_written(before, base.current_id, closed)
        &&& if result is Ok && base.is_full(limit) {
            self.backend_written(before, base.current_id, closed)
        } else {
            self.cache().backend() == before.cache().backend()
        }
    }

    /// Every segment of the index carries its own id, is duly stamped and
    /// within the size bound, and is open if and only if it is the writable
    /// one.
    pub proof fn lemma_indexed_segment(&self, id: usize)
        requires
            self.wf(),
            index_contains(self.index(), id),
        ensures
            self.segment(id).id == id,
            self.segment(id).is_stamped(),
            self.segment(id).size_bounded(self.segment_size() as nat),
            self.segment(id).close_time == 0 <==> id == self.current_id(),
            id <= self.current_id(),
    {
        let p = index_position(self.index(), id);
        let last = self.index().len() - 1;
        if p < last {
            assert(self.index()[p].0 < self.index()[last].0);
            assert(self.entry_stored(self.index()[p]));
        }
    }

    /// Where segment `id` stands in the index, if it has an entry.
    fn find_in_index(&self, id: usize) -> (found: Option<usize>)
        ensures
            match found {
                Some(position) => position < self.index().len() && self.index()[position as int].0
                    == id,
                None => !index_contains(self.index(), id),
            },
    {
        let mut i: usize = 0;
        while i < self.segments_index.len()
            invariant
                i <= self.segments_index@.len(),
                forall|k: int| 0 <= k < i ==> (#[trigger] self.segments_index@[k]).0 != id,
            decreases self.segments_index@.len() - i,
        {
            if self.segments_index[i].0 == id {
                return Some(i);
            }
            i = i + 1;
        }
        None
    }

    /// Whether the index has an entry for segment `segment_id`.
    pub fn contains_segment(&self, segment_id: usize) -> (result: Result<
        bool,
        ReliableDispatchError,
    >)
        ensures
            result matches Ok(found) && found == index_contains(self.index(), segment_id),
    {
        Ok(self.find_in_index(segment_id).is_some())
    }

    /// How a read of segment `id`, which the index holds, ends in `self`
    /// with `result`, when the store was `before`. The writable segment is
    /// handed out as it stands, and the cache is left alone. A closed one
    /// comes from the cache, in memory or from the backend, and is the
    /// segment that was closed; the memory tier holds it from then on. Only
    /// the backend can make the read fail, and a reliable one never does; a
    /// failed read changes nothing.
    pub open spec fn served(
        &self,
        before: &Self,
        id: usize,
        result: Result<Option<Arc<Segment>>, ReliableDispatchError>,
    ) -> bool {
        match result {
            Ok(Some(segment)) => {
                &&& segment.wf()
                &&& segment@ == before.segment(id)
                &&& if id == before.current_id() {
                    self.cache().memory() == before.cache().memory()
                } else {
                    self.memory_written(before, id, before.segment(id))
                }
            },
            Ok(None) => false,
            Err(error) => {
                &&& before.cache().failed_with(error)
                &&& id != before.current_id()
                &&& !before.cache().reliable()
                &&& self.cache().memory() == before.cache().memory()
            },
        }
    }

    /// The segment of the index entry at `position`.
    fn fetch_indexed(&mut self, position: usize) -> (result: Result<
        Option<Arc<Segment>>,
        ReliableDispatchError,
    >)
        requires
            old(self).wf(),
            position < old(self).index().len(),
        ensures
            final(self).wf(),
            final(self).same_setup(old(self)),
            final(self).log() == old(self).log(),
            final(self).cache().backend() == old(self).cache().backend(),
            final(self).served(old(self), old(self).index()[position as int].0, result),
    {
        let id: usize = self.segments_index[position].0;
        if id == self.current_segment_id {
            proof {
                if position < self.index().len() - 1 {
                    assert(self.index()[position as int].0 < self.index()[self.index().len() - 1].0);
                }
            }
            return match &self.cached_segment {
                Some(segment) => Ok(Some(Arc::new(segment.clone()))),
                None => Ok(None),
            };
        }
        proof {
            assert(position < self.index().len() - 1);
            assert(self.entry_stored(self.index()[position as int]));
        }
        let result = self.storage.get_segment(self.topic_name.as_str(), id);
        proof {
            if result is Ok {
                assert(self.cache().memory() =~= old(self).cache().memory().insert(
                    self.key(id),
                    self.cache().memory()[self.key(id)],
                ));
            }
            assert forall|i: int| 0 <= i < self.index().len() - 1 implies self.entry_stored(
                #[trigger] self.index()[i],
            ) by {
                let entry = self.index()[i];
                assert(old(self).entry_stored(entry));
                if self.key(entry.0) == self.key(id) {
                    lemma_segment_key_injective(self.topic(), entry.0, self.topic(), id);
                }
            }
        }
        result
    }

    /// The segment that follows `requested_segment_id` in the index: the
    /// first segment of the index for `None`, and nothing where the index is
    /// empty, the requested segment is the last one, or the index does not
    /// hold it, as when it has been reclaimed.
    pub fn get_next_segment(&mut self, requested_segment_id: Option<usize>) -> (result: Result<
        Option<Arc<Segment>>,
        ReliableDispatchError,
    >)
        requires
            old(self).wf(),
        ensures
            final(self).wf(),
            final(self).same_setup(old(self)),
            final(self).log() == old(self).log(),
            final(self).cache().backend() == old(self).cache().backend(),
            match successor(old(self).index(), requested_segment_id) {
                None => result matches Ok(None) && final(self).cache().memory() == old(self).cache().memory(),
                Some(next) => final(self).served(old(self), next, result),
            },
    {
        match requested_segment_id {
            None => {
                if self.segments_index.len() == 0 {
                    return Ok(None);
                }
                self.fetch_indexed(0)
            },
            Some(segment_id) => {
                match self.find_in_index(segment_id) {
                    Some(position) => {
                        proof {
                            lemma_index_position(self.index(), position as int);
                        }
                        if self.segments_index.len() - position > 1 {
                            self.fetch_indexed(position + 1)
                        } else {
                            Ok(None)
                        }
                    },
                    None => Ok(None),
                }
            },
        }
    }

    /// Segment `segment_id` as the log holds it now, or nothing where the
    /// index has no entry for it. A reader that has come to the end of an
    /// open segment asks again with this, and sees what has been appended
    /// since.
    pub fn read_segment(&mut self, segment_id: usize) -> (result: Result<
        Option<Arc<Segment>>,
        ReliableDispatchError,
    >)
        requires
            old(self).wf(),
        ensures
            final(self).wf(),
            final(self).same_setup(old(self)),
            final(self).log() == old(self).log(),
            final(self).cache().backend() == old(self).cache().backend(),
            if index_contains(old(self).index(), segment_id) {
                final(self).served(old(self), segment_id, result)
            } else {
                result matches Ok(None) && final(self).cache().memory() == old(self).cache().memory()
            },
    {
        match self.find_in_index(segment_id) {
            Some(position) => self.fetch_indexed(position),
            None => Ok(None),
        }
    }

    /// The ids of the closed segments that `rule` gives up, in index order.
    fn reclaimable_ids(&self, rule: &ReclaimRule) -> (ids: Vec<usize>)
        requires
            ids_increasing(self.index()),
        ensures
            increasing(ids@),
            forall|k: int|
                0 <= k < ids@.len() ==> given_up(
                    self.index(),
                    #[trigger] ids@[k],
                    *rule,
                    self.retention_period(),
                ),
            forall|p: int|
                0 <= p < self.index().len() && rule.gives_up(
                    #[trigger] self.index()[p],
                    self.retention_period(),
                ) ==> ids@.contains(self.index()[p].0),
    {
        let mut ids: Vec<usize> = Vec::new();
        let mut i: usize = 0;
        while i < self.segments_index.len()
            invariant
                i <= self.segments_index@.len(),
                ids_increasing(self.index()),
                increasing(ids@),
                ids@.len() > 0 ==> exists|p: int|
                    0 <= p < i && (#[trigger] self.index()[p]).0 == ids@.last(),
                forall|k: int|
                    0 <= k < ids@.len() ==> given_up(
                        self.index(),
                        #[trigger] ids@[k],
                        *rule,
                        self.retention_period(),
                    ),
                forall|p: int|
                    0 <= p < i && rule.gives_up(
                        #[trigger] self.index()[p],
                        self.retention_period(),
                    ) ==> ids@.contains(self.index()[p].0),
            decreases self.segments_index@.len() - i,
        {
            let entry: IndexEntry = self.segments_index[i];
            let ghost before = ids@;
            if rule.applies(entry, self.retention_period) {
                ids.push(entry.0);
                proof {
                    assert(ids@[ids@.len() - 1] == entry.0);
                    assert(self.index()[i as int].0 == entry.0);
                    if before.len() > 0 {
                        let p = choose|p: int|
                            0 <= p < i && (#[trigger] self.index()[p]).0 == before.last();
                        assert(self.index()[p].0 < self.index()[i as int].0);
                    }
                    assert forall|a: int, b: int| 0 <= a < b < ids@.len() implies ids@[a]
                        < ids@[b] by {
                        if b < before.len() {
                            assert(before[a] < before[b]);
                        } else if a < before.len() - 1 {
                            assert(before[a] < before[before.len() - 1]);
                        }
                    }
                    assert forall|k: int| 0 <= k < ids@.len() implies given_up(
                        self.index(),
                        #[trigger] ids@[k],
                        *rule,
                        self.retention_period(),
                    ) by {
                        if k < before.len() {
                            assert(ids@[k] == before[k]);
                        }
                    }
                }
            }
            proof {
                assert forall|p: int|
                    0 <= p < i + 1 && rule.gives_up(
                        #[trigger] self.index()[p],
                        self.retention_period(),
                    ) implies ids@.contains(self.index()[p].0) by {
                    if p < i {
                        let k = choose|k: int| 0 <= k < before.len() && before[k] == self.index()[p].0;
                        assert(ids@[k] == self.index()[p].0);
                    } else {
                        assert(ids@[ids@.len() - 1] == self.index()[p].0);
                    }
                }
            }
            i = i + 1;
        }
        ids
    }

    /// Removes the segments `candidates` from the cache, memory and backend.
    /// Returns the ids of those that the backend let go; one that it did not
    /// stays where it is, to be tried again.
    fn remove_from_cache(&mut self, candidates: &Vec<usize>) -> (removed: Vec<usize>)
        requires
            old(self).cache().wf(),
            increasing(candidates@),
        ensures
            final(self).cache().wf(),
            final(self).same_setup(old(self)),
            final(self).log() == old(self).log(),
            final(self).writable_valid() == old(self).writable_valid(),
            increasing(removed@),
            forall|k: int| 0 <= k < removed@.len() ==> candidates@.contains(#[trigger] removed@[k]),
            old(self).cache().reliable() ==> removed@ == candidates@,
            final(self).cache().backend() == backend_without(
                old(self).cache().backend(),
                old(self).topic(),
                removed@.to_set(),
            ),
            final(self).cache().memory() == memory_without(
                old(self).cache().memory(),
                old(self).topic(),
                candidates@.to_set(),
            ),
    {
        let mut removed: Vec<usize> = Vec::new();
        let mut i: usize = 0;
        proof {
            assert(self.cache().backend() =~= backend_without(
                old(self).cache().backend(),
                old(self).topic(),
                removed@.to_set(),
            ));
            assert(candidates@.take(0).to_set() =~= Set::<usize>::empty());
            assert(self.cache().memory() =~= memory_without(
                old(self).cache().memory(),
                old(self).topic(),
                candidates@.take(0).to_set(),
            ));
        }
        while i < candidates.len()
            invariant
                i <= candidates@.len(),
                self.cache().wf(),
                self.same_setup(old(self)),
                self.log() == old(self).log(),
                self.writable_valid() == old(self).writable_valid(),
                increasing(candidates@),
                increasing(removed@),
                removed@.len() > 0 ==> exists|c: int|
                    0 <= c < i && #[trigger] candidates@[c] == removed@.last(),
                forall|k: int|
                    0 <= k < removed@.len() ==> candidates@.contains(#[trigger] removed@[k]),
                old(self).cache().reliable() ==> removed@ == candidates@.take(i as int),
                self.cache().backend() == backend_without(
                    old(self).cache().backend(),
                    old(self).topic(),
                    removed@.to_set(),
                ),
                self.cache().memory() == memory_without(
                    old(self).cache().memory(),
                    old(self).topic(),
                    candidates@.take(i as int).to_set(),
                ),
            decreases candidates@.len() - i,
        {
            let id: usize = candidates[i];
            let ghost before = removed@;
            let outcome = self.storage.remove_segment(self.topic_name.as_str(), id);
            proof {
                lemma_take_one_more(candidates@, i as int);
                lemma_keys_of_insert(old(self).topic(), candidates@.take(i as int).to_set(), id);
                assert(self.cache().memory() =~= memory_without(
                    old(self).cache().memory(),
                    old(self).topic(),
                    candidates@.take(i + 1).to_set(),
                ));
            }
            if outcome.is_ok() {
                removed.push(id);
                proof {
                    assert(removed@[removed@.len() - 1] == candidates@[i as int]);
                    if before.len() > 0 {
                        let c = choose|c: int| 0 <= c < i && #[trigger] candidates@[c] == before.last();
                        assert(candidates@[c] < candidates@[i as int]);
                    }
                    assert forall|a: int, b: int| 0 <= a < b < removed@.len() implies removed@[a]
                        < removed@[b] by {
                        if b < before.len() {
                            assert(before[a] < before[b]);
                        } else if a < before.len() - 1 {
                            assert(before[a] < before[before.len() - 1]);
                        }
                    }
                    assert forall|other: usize| removed@.contains(other) implies before.contains(
                        other,
                    ) || other == id by {
                        let k = choose|k: int| 0 <= k < removed@.len() && removed@[k] == other;
                        if k < before.len() {
                            assert(before[k] == other);
                        }
                    }
                    assert forall|other: usize|
                        before.contains(other) || other == id implies removed@.contains(other) by {
                        if before.contains(other) {
                            let k = choose|k: int| 0 <= k < before.len() && before[k] == other;
                            assert(removed@[k] == other);
                        } else {
                            assert(removed@[removed@.len() - 1] == other);
                        }
                    }
                    assert(removed@.to_set() =~= before.to_set().insert(id));
                    assert(self.cache().backend() =~= backend_without(
                        old(self).cache().backend(),
                        old(self).topic(),
                        removed@.to_set(),
                    ));
                    assert forall|k: int| 0 <= k < removed@.len() implies candidates@.contains(
                        #[trigger] removed@[k],
                    ) by {
                        if k < before.len() {
                            assert(removed@[k] == before[k]);
                        }
                    }
                    if old(self).cache().reliable() {
                        assert(removed@ =~= candidates@.take(i + 1));
                    }
                }
            }
            i = i + 1;
        }
        proof {
            assert(candidates@.take(candidates@.len() as int) =~= candidates@);
        }
        removed
    }

    /// Drops the entries of the segments in `removed` from the index.
    fn drop_from_index(&mut self, removed: &Vec<usize>)
        ensures
            final(self).index() == without(old(self).index(), removed@.to_set()),
            final(self).topic() == old(self).topic(),
            final(self).cache() == old(self).cache(),
            final(self).segment_size() == old(self).segment_size(),
            final(self).retention_period() == old(self).retention_period(),
            final(self).current_id() == old(self).current_id(),
            final(self).writable() == old(self).writable(),
            final(self).writable_valid() == old(self).writable_valid(),
    {
        let mut kept: Vec<IndexEntry> = Vec::new();
        let mut i: usize = 0;
        while i < self.segments_index.len()
            invariant
                i <= self.segments_index@.len(),
                kept@ == without(self.segments_index@.take(i as int), removed@.to_set()),
            decreases self.segments_index@.len() - i,
        {
            let entry: IndexEntry = self.segments_index[i];
            proof {
                assert(self.segments_index@.take(i + 1).drop_last() =~= self.segments_index@.take(
                    i as int,
                ));
            }
            if !holds_id(removed, entry.0) {
                kept.push(entry);
            }
            i = i + 1;
        }
        proof {
            assert(self.segments_index@.take(self.segments_index@.len() as int)
                =~= self.segments_index@);
        }
        self.segments_index = kept;
    }

    /// What a reclamation under `rule` has done when it has led from
    /// `before` to `self` and reclaimed the segments `removed`. The index
    /// has lost the entries of those segments and no others, and kept its
    /// order; the backend has lost those segments and no others. The memory
    /// tier has lost what was written for every segment that the rule gives
    /// up, also for one that the backend failed to remove, and nothing else;
    /// so it holds none of the segments reclaimed. Every segment reclaimed
    /// was one that the rule gives up, and `removed` lists them by rising id.
    /// Under a reliable backend no such segment is left in the index; under
    /// another, one that the backend failed to remove keeps its entry. The
    /// writable segment is untouched.
    pub open spec fn reclaimed(&self, before: &Self, removed: Seq<usize>, rule: ReclaimRule) -> bool {
        &&& self.same_setup(before)
        &&& self.current_id() == before.current_id()
        &&& self.writable() == before.writable()
        &&& self.index() == without(before.index(), removed.to_set())
        &&& increasing(removed)
        &&& forall|k: int|
            0 <= k < removed.len() ==> given_up(
                before.index(),
                #[trigger] removed[k],
                rule,
                before.retention_period(),
            )
        &&& before.cache().reliable() ==> forall|k: int|
            0 <= k < self.index().len() ==> !rule.gives_up(
                #[trigger] self.index()[k],
                before.retention_period(),
            )
        &&& self.cache().backend() == backend_without(
            before.cache().backend(),
            before.topic(),
            removed.to_set(),
        )
        &&& self.cache().memory() == memory_without(
            before.cache().memory(),
            before.topic(),
            ids_given_up(before.index(), rule, before.retention_period()),
        )
        &&& forall|k: int|
            0 <= k < removed.len() ==> !self.cache().memory().contains_key(
                self.key(#[trigger] removed[k]),
            )
        &&& forall|k: int|
            0 <= k < removed.len() ==> !self.cache().backend().contains_key(
                (self.topic(), #[trigger] removed[k]),
            )
    }

    /// Reclaims the closed segments that `rule` gives up: each is removed
    /// from the cache, memory and backend, and then from the index. Where
    /// the backend fails to remove a segment, the segment keeps its index
    /// entry and is tried again at the next reclamation. Returns the ids of
    /// the segments reclaimed.
    pub fn reclaim(&mut self, rule: &ReclaimRule) -> (removed: Vec<usize>)
        requires
            old(self).wf(),
        ensures
            final(self).wf(),
            final(self).reclaimed(old(self), removed@, *rule),
    {
        let candidates = self.reclaimable_ids(rule);
        let removed = self.remove_from_cache(&candidates);
        self.drop_from_index(&removed);
        proof {
            let given = ids_given_up(old(self).index(), *rule, old(self).retention_period());
            assert forall|id: usize| candidates@.to_set().contains(id) implies given.contains(
                id,
            ) by {
                let c = choose|c: int| 0 <= c < candidates@.len() && candidates@[c] == id;
                assert(given_up(old(self).index(), candidates@[c], *rule, old(self).retention_period()));
            }
            assert forall|id: usize| given.contains(id) implies candidates@.to_set().contains(
                id,
            ) by {
                let p = choose|p: int|
                    0 <= p < old(self).index().len() && (#[trigger] old(self).index()[p]).0 == id
                        && rule.gives_up(old(self).index()[p], old(self).retention_period());
                assert(candidates@.contains(old(self).index()[p].0));
            }
            assert(candidates@.to_set() =~= given);
            assert(self.cache().memory().submap_of(old(self).cache().memory()));
            assert forall|k: int| 0 <= k < removed@.len() implies !self.cache().memory().contains_key(
                self.key(#[trigger] removed@[k]),
            ) && !self.cache().backend().contains_key((self.topic(), removed@[k])) by {
                assert(candidates@.contains(removed@[k]));
                assert(candidates@.to_set().contains(removed@[k]) && segment_key(
                    self.topic(),
                    removed@[k],
                ) == self.key(removed@[k]));
                assert(removed@.to_set().contains(removed@[k]));
            }
        }
        proof {
            let before = old(self).index();
            let gone = removed@.to_set();
            let kept = self.index();
            let retention = old(self).retention_period();
            lemma_without(before, gone);
            assert forall|k: int| 0 <= k < removed@.len() implies given_up(
                before,
                #[trigger] removed@[k],
                *rule,
                retention,
            ) by {
                let c = choose|c: int| 0 <= c < candidates@.len() && candidates@[c] == removed@[k];
                assert(given_up(before, candidates@[c], *rule, retention));
            }
            // the open entry stays
            if before.len() > 0 {
                if gone.contains(before.last().0) {
                    let k = choose|k: int| 0 <= k < removed@.len() && removed@[k] == before.last().0;
                    assert(given_up(before, removed@[k], *rule, retention));
                    let p = choose|p: int|
                        0 <= p < before.len() && (#[trigger] before[p]).0 == removed@[k]
                            && rule.gives_up(before[p], retention);
                    if p < before.len() - 1 {
                        assert(before[p].0 < before[before.len() - 1].0);
                    }
                    assert(before[p].1 == 0);
                }
                assert(kept.last() == before.last());
            }
            assert forall|k: int| 0 <= k < kept.len() implies ((#[trigger] kept[k]).1 == 0 <==> k
                == kept.len() - 1) by {
                let j = choose|j: int| 0 <= j < before.len() && before[j] == kept[k];
                if k < kept.len() - 1 {
                    assert(kept[k].0 < kept[kept.len() - 1].0);
                    assert(j != before.len() - 1);
                }
            }
            assert forall|k: int| 0 <= k < kept.len() - 1 implies self.entry_stored(
                #[trigger] kept[k],
            ) by {
                let j = choose|j: int| 0 <= j < before.len() && before[j] == kept[k];
                assert(kept[k].0 < kept[kept.len() - 1].0);
                assert(j < before.len() - 1);
                assert(old(self).entry_stored(before[j]));
                assert(!gone.contains(kept[k].0));
            }
            if old(self).cache().reliable() {
                assert forall|k: int| 0 <= k < kept.len() implies !rule.gives_up(
                    #[trigger] kept[k],
                    retention,
                ) by {
                    let j = choose|j: int| 0 <= j < before.len() && before[j] == kept[k];
                    if rule.gives_up(before[j], retention) {
                        assert(candidates@.contains(before[j].0));
                        assert(removed@.contains(before[j].0));
                    }
                }
            }
        }
        removed
    }

    /// The lifecycle step under [`RetentionPolicy::RetainUntilAck`]: reclaims
    /// the closed segments up to the least id that the subscriptions have
    /// acknowledged, which is zero where there is no subscription.
    ///
    /// [`RetentionPolicy::RetainUntilAck`]: crate::options::RetentionPolicy::RetainUntilAck
    pub fn cleanup_acknowledged_segments(&mut self, subscriptions: &Subscriptions) -> (removed: Vec<
        usize,
    >)
        requires
            old(self).wf(),
        ensures
            final(self).wf(),
            exists|least: usize|
                is_least_cursor(subscriptions@.values(), least) && #[trigger] final(self).reclaimed(
                    old(self),
                    removed@,
                    ReclaimRule::Acknowledged { min_acknowledged_id: least },
                ),
    {
        let least = subscriptions.min_acknowledged();
        let rule = ReclaimRule::Acknowledged { min_acknowledged_id: least };
        self.reclaim(&rule)
    }

    /// The lifecycle step under [`RetentionPolicy::RetainUntilExpire`]:
    /// reclaims the closed segments that were closed at least a retention
    /// period before `now`, whatever the subscriptions have consumed.
    ///
    /// [`RetentionPolicy::RetainUntilExpire`]: crate::options::RetentionPolicy::RetainUntilExpire
    pub fn cleanup_expired_segments(&mut self, now: u64) -> (removed: Vec<usize>)
        requires
            old(self).wf(),
        ensures
            final(self).wf(),
            final(self).reclaimed(old(self), removed@, ReclaimRule::Expired { now }),
    {
        let rule = ReclaimRule::Expired { now };
        self.reclaim(&rule)
    }
}

} // verus!
